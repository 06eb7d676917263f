//! Byte-string utilities: every routine here is pure logic over `Seq<u8>`,
//! with an exact specification.
use vstd::prelude::*;
use vstd::relations::{sorted_by, total_ordering};
use vstd::string::StrSliceExecFns;

verus! {

/// The byte sequence of an ASCII string, one byte per character.
pub open spec fn ascii_bytes(s: Seq<char>) -> Seq<u8> {
    Seq::new(s.len(), |i: int| s[i] as u8)
}

/// Copies the bytes of an ASCII string slice.
pub fn str_to_bytes(s: &str) -> (r: Vec<u8>)
    requires
        vstd::string::is_ascii(s),
    ensures
        r@ == ascii_bytes(s@),
{
    proof {
        vstd::string::is_ascii_spec_bytes(s);
    }
    s.as_bytes_vec()
}

/// The views of a sequence of byte vectors.
pub open spec fn views(s: Seq<Vec<u8>>) -> Seq<Seq<u8>> {
    s.map_values(|v: Vec<u8>| v@)
}

pub open spec fn upper_byte(b: u8) -> u8 {
    if 97 <= b && b <= 122 {
        (b - 32) as u8
    } else {
        b
    }
}

/// ASCII uppercasing, byte by byte; non-letters are unchanged.
pub open spec fn upper_bytes(s: Seq<u8>) -> Seq<u8> {
    s.map_values(|b: u8| upper_byte(b))
}

pub fn to_upper(s: &[u8]) -> (r: Vec<u8>)
    ensures
        r@ == upper_bytes(s@),
{
    let mut r: Vec<u8> = Vec::new();
    let mut i: usize = 0;
    while i < s.len()
        invariant
            i <= s@.len(),
            r@ == upper_bytes(s@.subrange(0, i as int)),
        decreases s@.len() - i,
    {
        let b = s[i];
        if 97 <= b && b <= 122 {
            r.push(b - 32);
        } else {
            r.push(b);
        }
        i += 1;
        proof {
            assert(r@ =~= upper_bytes(s@.subrange(0, i as int)));
        }
    }
    proof {
        assert(s@.subrange(0, s@.len() as int) =~= s@);
    }
    r
}

/// The pattern `p` occurs in `s` at position `i`.
pub open spec fn match_at(s: Seq<u8>, p: Seq<u8>, i: int) -> bool {
    0 <= i && i + p.len() <= s.len() && s.subrange(i, i + p.len() as int) == p
}

/// The first position at or after `i` where `p` occurs in `s`.
pub open spec fn first_match_from(s: Seq<u8>, p: Seq<u8>, i: int) -> Option<int>
    recommends
        0 <= i,
    decreases s.len() - i + 1,
{
    if i < 0 || i + p.len() > s.len() {
        None
    } else if match_at(s, p, i) {
        Some(i)
    } else {
        first_match_from(s, p, i + 1)
    }
}

/// The first position at or after `i` holding byte `b`.
pub open spec fn first_byte_from(s: Seq<u8>, b: u8, i: int) -> Option<int>
    recommends
        0 <= i,
    decreases s.len() - i + 1,
{
    if i < 0 || i >= s.len() {
        None
    } else if s[i] == b {
        Some(i)
    } else {
        first_byte_from(s, b, i + 1)
    }
}

/// What a first-occurrence search says: the position found matches, and
/// nothing before it does.
pub proof fn lemma_first_match_from_props(s: Seq<u8>, p: Seq<u8>, i: int)
    requires
        0 <= i,
    ensures
        match first_match_from(s, p, i) {
            Some(j) => i <= j && match_at(s, p, j) && forall|k: int|
                i <= k < j ==> !match_at(s, p, k),
            None => forall|k: int| i <= k ==> !match_at(s, p, k),
        },
    decreases s.len() - i + 1,
{
    if i + p.len() <= s.len() && !match_at(s, p, i) {
        lemma_first_match_from_props(s, p, i + 1);
    }
}

/// What a first-byte search says: the position found holds the byte, and no
/// earlier position at or after the start does.
pub proof fn lemma_first_byte_from_props(s: Seq<u8>, b: u8, i: int)
    requires
        0 <= i,
    ensures
        match first_byte_from(s, b, i) {
            Some(j) => i <= j < s.len() && s[j] == b && forall|k: int|
                i <= k < j ==> s[k] != b,
            None => forall|k: int| i <= k < s.len() ==> s[k] != b,
        },
    decreases s.len() - i + 1,
{
    if i < s.len() && s[i] != b {
        lemma_first_byte_from_props(s, b, i + 1);
    }
}

fn eq_at(s: &[u8], p: &[u8], at: usize) -> (r: bool)
    requires
        at + p@.len() <= s@.len(),
    ensures
        r == match_at(s@, p@, at as int),
{
    let n = s.len();
    let mut j: usize = 0;
    while j < p.len()
        invariant
            j <= p@.len(),
            n == s@.len(),
            at + p@.len() <= s@.len(),
            s@.subrange(at as int, at + j) =~= p@.subrange(0, j as int),
        decreases p@.len() - j,
    {
        if s[at + j] != p[j] {
            proof {
                if match_at(s@, p@, at as int) {
                    assert(s@.subrange(at as int, at + p@.len())[j as int] == p@[j as int]);
                }
            }
            return false;
        }
        j += 1;
        proof {
            assert(s@.subrange(at as int, at + j) =~= s@.subrange(at as int, at + j - 1).push(
                s@[at + j - 1],
            ));
            assert(p@.subrange(0, j as int) =~= p@.subrange(0, j - 1).push(p@[j - 1]));
        }
    }
    proof {
        assert(p@.subrange(0, p@.len() as int) =~= p@);
    }
    true
}

/// Whether `p` is a prefix of `s`.
pub fn has_prefix(s: &[u8], p: &[u8]) -> (r: bool)
    ensures
        r == match_at(s@, p@, 0),
{
    if p.len() > s.len() {
        return false;
    }
    eq_at(s, p, 0)
}

/// Finds the first occurrence of `p` in `s` at or after `from`.
pub fn find_pattern(s: &[u8], p: &[u8], from: usize) -> (r: Option<usize>)
    ensures
        match r {
            Some(u) => first_match_from(s@, p@, from as int) == Some(u as int),
            None => first_match_from(s@, p@, from as int) is None,
        },
{
    if p.len() == 0 {
        if from <= s.len() {
            proof {
                assert(s@.subrange(from as int, from as int) =~= p@);
            }
            return Some(from);
        }
        return None;
    }
    let mut i: usize = from;
    while i <= s.len() && p.len() <= s.len() - i
        invariant
            from <= i,
            p@.len() > 0,
            first_match_from(s@, p@, from as int) == first_match_from(s@, p@, i as int),
        decreases s@.len() - i + 1,
    {
        if eq_at(s, p, i) {
            return Some(i);
        }
        i += 1;
    }
    None
}

/// Finds the first occurrence of byte `b` in `s` at or after `from`.
pub fn find_byte(s: &[u8], b: u8, from: usize) -> (r: Option<usize>)
    ensures
        match r {
            Some(u) => first_byte_from(s@, b, from as int) == Some(u as int),
            None => first_byte_from(s@, b, from as int) is None,
        },
{
    let mut i: usize = from;
    while i < s.len()
        invariant
            from <= i,
            first_byte_from(s@, b, from as int) == first_byte_from(s@, b, i as int),
        decreases s@.len() - i,
    {
        if s[i] == b {
            return Some(i);
        }
        i += 1;
    }
    None
}

/// All bytes are ASCII decimal digits.
pub open spec fn all_digits(s: Seq<u8>) -> bool {
    forall|i: int| 0 <= i < s.len() ==> 48 <= #[trigger] s[i] <= 57
}

/// The value of a string of decimal digits.
pub open spec fn dec_val(s: Seq<u8>) -> nat
    decreases s.len(),
{
    if s.len() == 0 {
        0
    } else {
        dec_val(s.drop_last()) * 10 + (s.last() - 48) as nat
    }
}

pub proof fn lemma_dec_val_prefix(s: Seq<u8>, i: int)
    requires
        0 <= i <= s.len(),
    ensures
        dec_val(s.subrange(0, i)) <= dec_val(s),
    decreases s.len() - i,
{
    if i < s.len() {
        assert(s.subrange(0, i + 1).drop_last() =~= s.subrange(0, i));
        assert(dec_val(s.subrange(0, i + 1)) == dec_val(s.subrange(0, i)) * 10 + (s.subrange(
            0,
            i + 1,
        ).last() - 48) as nat);
        lemma_dec_val_prefix(s, i + 1);
    } else {
        assert(s.subrange(0, i) =~= s);
    }
}

/// Parses a non-empty, all-digit byte string as a decimal number, if it fits.
pub fn parse_u128(s: &[u8]) -> (r: Option<u128>)
    ensures
        r is Some <==> (s@.len() > 0 && all_digits(s@) && dec_val(s@) <= u128::MAX),
        r matches Some(v) ==> v == dec_val(s@),
{
    if s.len() == 0 {
        return None;
    }
    let mut acc: u128 = 0;
    let mut i: usize = 0;
    while i < s.len()
        invariant
            0 < s@.len(),
            i <= s@.len(),
            all_digits(s@.subrange(0, i as int)),
            acc == dec_val(s@.subrange(0, i as int)),
        decreases s@.len() - i,
    {
        let b = s[i];
        if b < 48 || b > 57 {
            return None;
        }
        let d = (b - 48) as u128;
        if acc > (u128::MAX - d) / 10 {
            proof {
                assert(s@.subrange(0, i + 1).drop_last() =~= s@.subrange(0, i as int));
                assert(s@.subrange(0, i + 1).last() == s@[i as int]);
                assert(dec_val(s@.subrange(0, i + 1)) == acc * 10 + d);
                assert(acc * 10 + d > u128::MAX) by {
                    let x = (u128::MAX - d) as int;
                    assert(x == 10 * (x / 10) + (x % 10));
                    assert(acc >= x / 10 + 1);
                    assert(acc * 10 >= (x / 10 + 1) * 10) by (nonlinear_arith)
                        requires
                            acc >= x / 10 + 1,
                    ;
                }
                lemma_dec_val_prefix(s@, i + 1);
            }
            return None;
        }
        proof {
            let x = (u128::MAX - d) as int;
            assert(x == 10 * (x / 10) + (x % 10));
            assert(acc * 10 <= (x / 10) * 10) by (nonlinear_arith)
                requires
                    acc <= x / 10,
            ;
            assert(s@.subrange(0, i + 1).drop_last() =~= s@.subrange(0, i as int));
        }
        acc = acc * 10 + d;
        i += 1;
    }
    proof {
        assert(s@.subrange(0, s@.len() as int) =~= s@);
    }
    Some(acc)
}

/// Drops every leading byte equal to `q`.
pub open spec fn drop_leading(s: Seq<u8>, q: u8) -> Seq<u8>
    decreases s.len(),
{
    if s.len() > 0 && s[0] == q {
        drop_leading(s.drop_first(), q)
    } else {
        s
    }
}

/// Drops every trailing byte equal to `q`.
pub open spec fn drop_trailing(s: Seq<u8>, q: u8) -> Seq<u8>
    decreases s.len(),
{
    if s.len() > 0 && s.last() == q {
        drop_trailing(s.drop_last(), q)
    } else {
        s
    }
}

/// Removes all leading and trailing double quotes.
pub open spec fn trim_quotes(s: Seq<u8>) -> Seq<u8> {
    drop_trailing(drop_leading(s, 34), 34)
}

proof fn lemma_drop_leading_skip(s: Seq<u8>, q: u8, i: int)
    requires
        0 <= i <= s.len(),
        forall|k: int| 0 <= k < i ==> s[k] == q,
    ensures
        drop_leading(s, q) == drop_leading(s.skip(i), q),
    decreases i,
{
    if i > 0 {
        assert(s.len() > 0 && s[0] == q);
        assert(s.drop_first() =~= s.skip(1));
        lemma_drop_leading_skip(s.skip(1), q, i - 1);
        assert(s.skip(1).skip(i - 1) =~= s.skip(i));
    } else {
        assert(s.skip(0) =~= s);
    }
}

proof fn lemma_drop_trailing_take(s: Seq<u8>, q: u8, i: int)
    requires
        0 <= i <= s.len(),
        forall|k: int| i <= k < s.len() ==> s[k] == q,
    ensures
        drop_trailing(s, q) == drop_trailing(s.take(i), q),
    decreases s.len() - i,
{
    if i < s.len() {
        assert(s.len() > 0 && s.last() == q);
        assert(s.drop_last() =~= s.take(s.len() - 1));
        lemma_drop_trailing_take(s.take(s.len() - 1), q, i);
        assert(s.take(s.len() - 1).take(i) =~= s.take(i));
    } else {
        assert(s.take(i) =~= s);
    }
}

/// Removes all leading and trailing double-quote bytes.
pub fn trim_quote_bytes(s: &[u8]) -> (r: Vec<u8>)
    ensures
        r@ == trim_quotes(s@),
{
    let mut lo: usize = 0;
    while lo < s.len() && s[lo] == 34
        invariant
            lo <= s@.len(),
            forall|k: int| 0 <= k < lo ==> s@[k] == 34,
        decreases s@.len() - lo,
    {
        lo += 1;
    }
    proof {
        lemma_drop_leading_skip(s@, 34, lo as int);
        if lo < s@.len() {
            assert(s@.skip(lo as int)[0] == s@[lo as int]);
        }
        assert(drop_leading(s@.skip(lo as int), 34) == s@.skip(lo as int));
    }
    let ghost t = s@.skip(lo as int);
    let mut hi: usize = s.len();
    while hi > lo && s[hi - 1] == 34
        invariant
            lo <= hi <= s@.len(),
            forall|k: int| hi <= k < s@.len() ==> s@[k] == 34,
        decreases hi,
    {
        hi -= 1;
    }
    proof {
        assert(forall|k: int| hi - lo <= k < t.len() ==> t[k] == s@[k + lo]);
        lemma_drop_trailing_take(t, 34, hi - lo);
        if hi > lo {
            assert(t.take(hi - lo).last() == s@[hi - 1]);
        }
        assert(drop_trailing(t.take(hi - lo), 34) == t.take(hi - lo));
    }
    let mut r: Vec<u8> = Vec::new();
    let mut i: usize = lo;
    while i < hi
        invariant
            lo <= i <= hi <= s@.len(),
            r@ =~= s@.subrange(lo as int, i as int),
        decreases hi - i,
    {
        r.push(s[i]);
        i += 1;
        proof {
            assert(r@ =~= s@.subrange(lo as int, i as int));
        }
    }
    proof {
        assert(s@.subrange(lo as int, hi as int) =~= t.take(hi - lo));
    }
    r
}

/// Lexicographic (byte-wise) order on byte strings.
pub open spec fn lex_le(a: Seq<u8>, b: Seq<u8>) -> bool
    decreases a.len(),
{
    if a.len() == 0 {
        true
    } else if b.len() == 0 {
        false
    } else if a[0] < b[0] {
        true
    } else if a[0] > b[0] {
        false
    } else {
        lex_le(a.drop_first(), b.drop_first())
    }
}

/// The lexicographic order as a relation value.
pub open spec fn lex_order() -> spec_fn(Seq<u8>, Seq<u8>) -> bool {
    |a: Seq<u8>, b: Seq<u8>| lex_le(a, b)
}

pub proof fn lemma_lex_connected(a: Seq<u8>, b: Seq<u8>)
    ensures
        lex_le(a, b) || lex_le(b, a),
    decreases a.len(),
{
    if a.len() > 0 && b.len() > 0 && a[0] == b[0] {
        lemma_lex_connected(a.drop_first(), b.drop_first());
    }
}

pub proof fn lemma_lex_antisym(a: Seq<u8>, b: Seq<u8>)
    requires
        lex_le(a, b),
        lex_le(b, a),
    ensures
        a == b,
    decreases a.len(),
{
    if a.len() > 0 && b.len() > 0 {
        lemma_lex_antisym(a.drop_first(), b.drop_first());
        assert(a =~= seq![a[0]] + a.drop_first());
        assert(b =~= seq![b[0]] + b.drop_first());
    } else {
        assert(a.len() == 0 && b.len() == 0);
        assert(a =~= b);
    }
}

pub proof fn lemma_lex_trans(a: Seq<u8>, b: Seq<u8>, c: Seq<u8>)
    requires
        lex_le(a, b),
        lex_le(b, c),
    ensures
        lex_le(a, c),
    decreases a.len(),
{
    if a.len() > 0 && b.len() > 0 && c.len() > 0 && a[0] == b[0] && b[0] == c[0] {
        lemma_lex_trans(a.drop_first(), b.drop_first(), c.drop_first());
    }
}

/// The lexicographic order is a total order.
pub proof fn lemma_lex_total_ordering()
    ensures
        total_ordering(lex_order()),
{
    let leq = lex_order();
    assert forall|a: Seq<u8>, b: Seq<u8>| #[trigger] leq(a, b) || #[trigger] leq(b, a) by {
        lemma_lex_connected(a, b);
    }
    assert forall|a: Seq<u8>| #[trigger] leq(a, a) by {
        lemma_lex_connected(a, a);
    }
    assert forall|a: Seq<u8>, b: Seq<u8>| #[trigger] leq(a, b) && #[trigger] leq(b, a) implies a
        == b by {
        lemma_lex_antisym(a, b);
    }
    assert forall|a: Seq<u8>, b: Seq<u8>, c: Seq<u8>|
        #[trigger] leq(a, b) && #[trigger] leq(b, c) implies leq(a, c) by {
        lemma_lex_trans(a, b, c);
    }
}

proof fn lemma_lex_common_prefix(a: Seq<u8>, b: Seq<u8>, i: int)
    requires
        0 <= i <= a.len(),
        i <= b.len(),
        a.subrange(0, i) == b.subrange(0, i),
    ensures
        lex_le(a, b) == lex_le(a.skip(i), b.skip(i)),
    decreases i,
{
    if i > 0 {
        assert forall|k: int| 0 <= k < i implies a[k] == b[k] by {
            assert(a.subrange(0, i)[k] == a[k]);
            assert(b.subrange(0, i)[k] == b[k]);
        }
        assert(a[0] == b[0]);
        assert(a.drop_first().subrange(0, i - 1) =~= b.drop_first().subrange(0, i - 1));
        lemma_lex_common_prefix(a.drop_first(), b.drop_first(), i - 1);
        assert(a.drop_first().skip(i - 1) =~= a.skip(i));
        assert(b.drop_first().skip(i - 1) =~= b.skip(i));
    } else {
        assert(a.skip(0) =~= a);
        assert(b.skip(0) =~= b);
    }
}

/// Compares two byte strings in lexicographic order.
pub fn lex_le_bytes(a: &Vec<u8>, b: &Vec<u8>) -> (r: bool)
    ensures
        r == lex_le(a@, b@),
{
    let mut i: usize = 0;
    while i < a.len() && i < b.len()
        invariant
            i <= a@.len(),
            i <= b@.len(),
            a@.subrange(0, i as int) =~= b@.subrange(0, i as int),
        decreases a@.len() - i,
    {
        proof {
            lemma_lex_common_prefix(a@, b@, i as int);
            assert(a@.skip(i as int)[0] == a@[i as int]);
            assert(b@.skip(i as int)[0] == b@[i as int]);
        }
        if a[i] < b[i] {
            return true;
        }
        if a[i] > b[i] {
            return false;
        }
        i += 1;
        proof {
            assert(a@.subrange(0, i as int) =~= a@.subrange(0, i - 1).push(a@[i - 1]));
            assert(b@.subrange(0, i as int) =~= b@.subrange(0, i - 1).push(b@[i - 1]));
        }
    }
    proof {
        lemma_lex_common_prefix(a@, b@, if i < a@.len() { i as int } else { a@.len() as int });
        if a@.len() <= b@.len() {
            assert(a@.subrange(0, a@.len() as int) =~= a@);
        }
    }
    a.len() <= b.len()
}

/// Joins byte strings with a comma between neighbours.
pub open spec fn join_comma(parts: Seq<Seq<u8>>) -> Seq<u8>
    decreases parts.len(),
{
    if parts.len() == 0 {
        Seq::empty()
    } else if parts.len() == 1 {
        parts[0]
    } else {
        join_comma(parts.drop_last()) + seq![44u8] + parts.last()
    }
}

pub fn push_all(dst: &mut Vec<u8>, src: &Vec<u8>)
    ensures
        final(dst)@ == old(dst)@ + src@,
{
    let mut i: usize = 0;
    while i < src.len()
        invariant
            i <= src@.len(),
            dst@ =~= old(dst)@ + src@.subrange(0, i as int),
        decreases src@.len() - i,
    {
        dst.push(src[i]);
        i += 1;
        proof {
            assert(dst@ =~= old(dst)@ + src@.subrange(0, i as int));
        }
    }
    proof {
        assert(src@.subrange(0, src@.len() as int) =~= src@);
    }
}

/// Joins the parts with commas.
pub fn join_with_commas(parts: &Vec<Vec<u8>>) -> (r: Vec<u8>)
    ensures
        r@ == join_comma(views(parts@)),
{
    let mut r: Vec<u8> = Vec::new();
    let mut i: usize = 0;
    while i < parts.len()
        invariant
            i <= parts@.len(),
            r@ == join_comma(views(parts@).subrange(0, i as int)),
        decreases parts@.len() - i,
    {
        if i > 0 {
            r.push(44);
        }
        push_all(&mut r, &parts[i]);
        i += 1;
        proof {
            let vs = views(parts@).subrange(0, i as int);
            assert(vs.drop_last() =~= views(parts@).subrange(0, i - 1));
            assert(vs.last() == parts@[i - 1]@);
            if i > 1 {
                assert(r@ =~= join_comma(vs.drop_last()) + seq![44u8] + vs.last());
            } else {
                assert(r@ =~= vs.last());
            }
        }
    }
    proof {
        assert(views(parts@).subrange(0, parts@.len() as int) =~= views(parts@));
    }
    r
}

/// The byte `b` does not occur in `s`.
pub open spec fn lacks_byte(s: Seq<u8>, b: u8) -> bool {
    forall|i: int| 0 <= i < s.len() ==> s[i] != b
}

/// Peeling a join from the left: with two or more parts, the join is the
/// first part, a comma, and the join of the rest.
pub proof fn lemma_join_comma_left(parts: Seq<Seq<u8>>)
    requires
        parts.len() >= 2,
    ensures
        join_comma(parts) == parts[0] + seq![44u8] + join_comma(parts.drop_first()),
    decreases parts.len(),
{
    if parts.len() == 2 {
        assert(parts.drop_last() =~= seq![parts[0]]);
        assert(parts.drop_first() =~= seq![parts[1]]);
        assert(join_comma(parts) =~= parts[0] + seq![44u8] + parts[1]);
    } else {
        lemma_join_comma_left(parts.drop_last());
        assert(parts.drop_last()[0] == parts[0]);
        assert(parts.drop_last().drop_first() =~= parts.drop_first().drop_last());
        assert(parts.drop_first().len() >= 2);
        assert(join_comma(parts.drop_first()) == join_comma(parts.drop_first().drop_last())
            + seq![44u8] + parts.drop_first().last());
        assert(parts.drop_first().last() == parts.last());
        assert(join_comma(parts) == join_comma(parts.drop_last()) + seq![44u8] + parts.last());
        assert(join_comma(parts) =~= parts[0] + seq![44u8] + join_comma(parts.drop_first()));
    }
}

/// On comma-free parts, joining with commas is injective for a given number
/// of parts.
pub proof fn lemma_join_comma_injective(p: Seq<Seq<u8>>, q: Seq<Seq<u8>>)
    requires
        p.len() == q.len(),
        forall|j: int| 0 <= j < p.len() ==> lacks_byte(#[trigger] p[j], 44),
        forall|j: int| 0 <= j < q.len() ==> lacks_byte(#[trigger] q[j], 44),
        join_comma(p) == join_comma(q),
    ensures
        p == q,
    decreases p.len(),
{
    if p.len() == 0 {
        assert(p =~= q);
    } else if p.len() == 1 {
        assert(join_comma(p) == p[0]);
        assert(join_comma(q) == q[0]);
        assert(p =~= q);
    } else {
        lemma_join_comma_left(p);
        lemma_join_comma_left(q);
        let jp = join_comma(p);
        let lp = p[0].len() as int;
        let lq = q[0].len() as int;
        assert(jp[lp] == 44) by {
            assert((p[0] + seq![44u8] + join_comma(p.drop_first()))[lp] == 44);
        }
        assert(jp[lq] == 44) by {
            assert((q[0] + seq![44u8] + join_comma(q.drop_first()))[lq] == 44);
        }
        if lp < lq {
            assert(jp[lp] == q[0][lp]);
            assert(q[0][lp] != 44);
            assert(false);
        }
        if lq < lp {
            assert(jp[lq] == p[0][lq]);
            assert(p[0][lq] != 44);
            assert(false);
        }
        assert(lp == lq);
        assert(p[0] =~= q[0]) by {
            assert forall|k: int| 0 <= k < lp implies p[0][k] == q[0][k] by {
                assert(jp[k] == p[0][k]);
                assert(jp[k] == q[0][k]);
            }
        }
        assert(join_comma(p.drop_first()) =~= join_comma(q.drop_first())) by {
            let rp = join_comma(p.drop_first());
            let rq = join_comma(q.drop_first());
            assert(rp.len() == jp.len() - lp - 1);
            assert(rq.len() == jp.len() - lq - 1);
            assert forall|k: int| 0 <= k < rp.len() implies rp[k] == rq[k] by {
                assert(jp[lp + 1 + k] == rp[k]);
                assert(jp[lq + 1 + k] == rq[k]);
            }
        }
        assert(forall|j: int|
            0 <= j < p.drop_first().len() ==> lacks_byte(#[trigger] p.drop_first()[j], 44));
        assert(forall|j: int|
            0 <= j < q.drop_first().len() ==> lacks_byte(#[trigger] q.drop_first()[j], 44));
        lemma_join_comma_injective(p.drop_first(), q.drop_first());
        assert(p =~= q) by {
            assert forall|k: int| 0 <= k < p.len() implies p[k] == q[k] by {
                if k > 0 {
                    assert(p.drop_first()[k - 1] == q.drop_first()[k - 1]);
                }
            }
        }
    }
}

/// Whether two byte vectors hold the same bytes.
pub fn bytes_eq(a: &Vec<u8>, b: &Vec<u8>) -> (r: bool)
    ensures
        r == (a@ == b@),
{
    if a.len() != b.len() {
        return false;
    }
    let mut i: usize = 0;
    while i < a.len()
        invariant
            a@.len() == b@.len(),
            i <= a@.len(),
            forall|k: int| 0 <= k < i ==> a@[k] == b@[k],
        decreases a@.len() - i,
    {
        if a[i] != b[i] {
            return false;
        }
        i += 1;
    }
    proof {
        assert(a@ =~= b@);
    }
    true
}

/// Sorts byte strings lexicographically; the result is exactly the
/// canonical `sort_by` of the input under the lexicographic order.
pub fn sort_lex(v: &Vec<Vec<u8>>) -> (r: Vec<Vec<u8>>)
    ensures
        views(r@) == views(v@).sort_by(lex_order()),
{
    let mut r: Vec<Vec<u8>> = Vec::new();
    let mut i: usize = 0;
    proof {
        assert(views(r@) =~= views(v@.subrange(0, 0)));
    }
    while i < v.len()
        invariant
            i <= v@.len(),
            sorted_by(views(r@), lex_order()),
            views(r@).to_multiset() == views(v@.subrange(0, i as int)).to_multiset(),
        decreases v@.len() - i,
    {
        let x = v[i].clone();
        let ghost pre = views(r@);
        let mut pos: usize = 0;
        while pos < r.len() && lex_le_bytes(&r[pos], &x)
            invariant
                pos <= r@.len(),
                views(r@) == pre,
                forall|k: int| 0 <= k < pos ==> lex_le(#[trigger] views(r@)[k], x@),
            decreases r@.len() - pos,
        {
            pos += 1;
        }
        proof {
            if pos < r@.len() {
                lemma_lex_connected(views(r@)[pos as int], x@);
            }
        }
        r.insert(pos, x);
        i += 1;
        proof {
            broadcast use vstd::seq_lib::group_to_multiset_ensures;
            broadcast use vstd::multiset::group_multiset_axioms;

            let leq = lex_order();
            let now = views(r@);
            assert(now =~= pre.insert(pos as int, x@));
            assert(now[pos as int] == x@);
            if pos < pre.len() {
                assert(leq(x@, pre[pos as int]));
            }
            assert forall|m: int, n: int| 0 <= m < n < now.len() implies #[trigger] leq(
                now[m],
                now[n],
            ) by {
                if n < pos {
                    assert(leq(pre[m], pre[n]));
                } else if n == pos {
                    assert(leq(pre[m], x@));
                } else if m == pos {
                    if n - 1 == pos {
                        assert(leq(x@, pre[pos as int]));
                    } else {
                        assert(leq(pre[pos as int], pre[n - 1]));
                        lemma_lex_trans(x@, pre[pos as int], pre[n - 1]);
                    }
                } else if m < pos {
                    assert(leq(pre[m], pre[n - 1]));
                } else {
                    assert(leq(pre[m - 1], pre[n - 1]));
                }
            }
            assert(sorted_by(now, leq));
            assert(now.remove(pos as int) =~= pre);
            assert(now.remove(pos as int).to_multiset() =~= now.to_multiset().remove(x@));
            assert(now.contains(x@));
            assert(now.to_multiset().count(x@) > 0);
            assert(now.to_multiset() =~= pre.to_multiset().insert(x@));
            assert(views(v@.subrange(0, i as int)) =~= views(v@.subrange(0, i - 1)).push(
                v@[i - 1]@,
            ));
            vstd::seq_lib::to_multiset_build(views(v@.subrange(0, i - 1)), v@[i - 1]@);
        }
    }
    proof {
        assert(v@.subrange(0, v@.len() as int) =~= v@);
        let s = views(v@);
        lemma_lex_total_ordering();
        s.lemma_sort_by_ensures(lex_order());
        vstd::seq_lib::lemma_sorted_unique(views(r@), s.sort_by(lex_order()), lex_order());
    }
    r
}

} // verus!
