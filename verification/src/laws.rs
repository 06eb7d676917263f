//! Laws of the duplicate-detection machinery, stated over the same spec
//! functions the validators' contracts use.
use crate::accounts::{fold_triples_upto, has_dup, signature_pairs, spec_signature};
use crate::amount::{amount_of, clamp_add};
use crate::extract::{parse_text, spec_extract, PathExpr};
use crate::rules::{balance_url, risk_url};
use crate::table::{
    lemma_credit_keeps_unique, lemma_credit_lookup, table_lookup, unique_keys,
};
use crate::text::{
    join_comma, lemma_lex_total_ordering, lex_order, match_at, trim_quotes, upper_bytes,
};
use crate::validate::{
    margin_bal_matches, margin_fold, spot_bal_matches, spot_fold, uid_matches,
};
use vstd::prelude::*;

verus! {

/// What one asset's running amount becomes after the first `j` records of
/// one balance extraction are folded onto it: the starting amount (absent
/// where never seen), raised — clamped — by each of its own records' two
/// parsed amounts, in record order; records of other assets leave it
/// untouched.
pub open spec fn folded_from(
    base: Option<int>,
    vs: Seq<Seq<u8>>,
    j: int,
    k: Seq<u8>,
) -> Option<int>
    decreases j,
{
    if j <= 0 {
        base
    } else {
        let size = vs.len() / 3;
        let prev = folded_from(base, vs, j - 1, k);
        if upper_bytes(trim_quotes(vs[j - 1])) == k {
            Some(
                clamp_add(
                    match prev {
                        Some(v) => v,
                        None => 0,
                    },
                    clamp_add(
                        amount_of(trim_quotes(vs[size + j - 1])),
                        amount_of(trim_quotes(vs[2 * size + j - 1])),
                    ),
                ),
            )
        } else {
            prev
        }
    }
}

/// The accumulator invariant, per extraction: after folding a balance
/// extraction, every asset's running amount is exactly its prior amount
/// raised by each of that asset's balance-bearing fields, and nothing else
/// moved.
pub proof fn lemma_fold_accumulates(
    es: Seq<(Seq<u8>, int)>,
    vs: Seq<Seq<u8>>,
    j: int,
    k: Seq<u8>,
)
    requires
        unique_keys(es),
        j >= 0,
    ensures
        unique_keys(fold_triples_upto(es, vs, j)),
        table_lookup(fold_triples_upto(es, vs, j), k) == folded_from(
            table_lookup(es, k),
            vs,
            j,
            k,
        ),
    decreases j,
{
    if j > 0 {
        lemma_fold_accumulates(es, vs, j - 1, k);
        let prev = fold_triples_upto(es, vs, j - 1);
        let size = vs.len() / 3;
        let key = upper_bytes(trim_quotes(vs[j - 1]));
        let delta = clamp_add(
            amount_of(trim_quotes(vs[size + j - 1])),
            amount_of(trim_quotes(vs[2 * size + j - 1])),
        );
        lemma_credit_keeps_unique(prev, key, delta);
        lemma_credit_lookup(prev, key, delta, k);
    }
}

/// What one asset's running amount becomes over the first `i` requests of a
/// margin transcript: each balance response that the walk folds raises it by
/// that asset's own rows, in transcript order.
pub open spec fn margin_amount(
    es: Seq<(Seq<u8>, int)>,
    urls: Seq<Seq<u8>>,
    bodies: Seq<Seq<u8>>,
    i: int,
    k: Seq<u8>,
) -> Option<int>
    decreases i,
{
    if i <= 0 {
        table_lookup(es, k)
    } else {
        let prev = margin_amount(es, urls, bodies, i - 1, k);
        if !match_at(urls[i - 1], risk_url(), 0) && match_at(urls[i - 1], balance_url(), 0) {
            match parse_text(bodies[i - 1]) {
                Some(doc) => if margin_bal_matches(doc).len() % 3 == 0 {
                    folded_from(prev, margin_bal_matches(doc), (margin_bal_matches(doc).len() / 3) as int, k)
                } else {
                    prev
                },
                None => prev,
            }
        } else {
            prev
        }
    }
}

/// The accumulator invariant over a margin transcript: after the walk,
/// every asset's amount equals its prior amount raised, in transcript
/// order, by the wallet-balance-plus-PnL of each of its rows in the folded
/// balance responses — and by nothing else.
pub proof fn lemma_margin_accumulates(
    es: Seq<(Seq<u8>, int)>,
    urls: Seq<Seq<u8>>,
    bodies: Seq<Seq<u8>>,
    i: int,
    k: Seq<u8>,
)
    requires
        unique_keys(es),
        i >= 0,
    ensures
        unique_keys(margin_fold(es, urls, bodies, i)),
        table_lookup(margin_fold(es, urls, bodies, i), k) == margin_amount(es, urls, bodies, i, k),
    decreases i,
{
    if i > 0 {
        lemma_margin_accumulates(es, urls, bodies, i - 1, k);
        let prev = margin_fold(es, urls, bodies, i - 1);
        if !match_at(urls[i - 1], risk_url(), 0) && match_at(urls[i - 1], balance_url(), 0) {
            match parse_text(bodies[i - 1]) {
                Some(doc) => {
                    if margin_bal_matches(doc).len() % 3 == 0 {
                        let vs = margin_bal_matches(doc);
                        lemma_fold_accumulates(prev, vs, (vs.len() / 3) as int, k);
                    }
                },
                None => {},
            }
        }
    }
}

/// What one asset's running amount becomes over the first `i` requests of a
/// spot transcript.
pub open spec fn spot_amount(
    es: Seq<(Seq<u8>, int)>,
    urls: Seq<Seq<u8>>,
    bodies: Seq<Seq<u8>>,
    i: int,
    k: Seq<u8>,
) -> Option<int>
    decreases i,
{
    if i <= 0 {
        table_lookup(es, k)
    } else {
        let prev = spot_amount(es, urls, bodies, i - 1, k);
        match parse_text(bodies[i - 1]) {
            Some(doc) => if uid_matches(doc).len() == 1 && spot_bal_matches(doc).len() % 3 == 0 {
                folded_from(prev, spot_bal_matches(doc), (spot_bal_matches(doc).len() / 3) as int, k)
            } else {
                prev
            },
            None => prev,
        }
    }
}

/// The accumulator invariant over a spot transcript: after the walk, every
/// asset's amount equals its prior amount raised, in transcript order, by
/// the free-plus-locked of each of its rows in the folded balance
/// responses — and by nothing else. With the margin law above, an asset's
/// total over a whole run is wallet balance plus PnL (margin) plus free
/// plus locked (spot).
pub proof fn lemma_spot_accumulates(
    es: Seq<(Seq<u8>, int)>,
    urls: Seq<Seq<u8>>,
    bodies: Seq<Seq<u8>>,
    i: int,
    k: Seq<u8>,
)
    requires
        unique_keys(es),
        i >= 0,
    ensures
        unique_keys(spot_fold(es, urls, bodies, i)),
        table_lookup(spot_fold(es, urls, bodies, i), k) == spot_amount(es, urls, bodies, i, k),
    decreases i,
{
    if i > 0 {
        lemma_spot_accumulates(es, urls, bodies, i - 1, k);
        let prev = spot_fold(es, urls, bodies, i - 1);
        match parse_text(bodies[i - 1]) {
            Some(doc) => {
                if uid_matches(doc).len() == 1 && spot_bal_matches(doc).len() % 3 == 0 {
                    let vs = spot_bal_matches(doc);
                    lemma_fold_accumulates(prev, vs, (vs.len() / 3) as int, k);
                }
            },
            None => {},
        }
    }
}

/// Extraction is deterministic and idempotent: the extracted values are a
/// function of the body and the paths alone, so any two readings of the
/// same body with the same paths hold the same ordered values.
pub proof fn lemma_extraction_deterministic(
    body: Seq<u8>,
    paths: Seq<PathExpr>,
    a: Seq<Seq<u8>>,
    b: Seq<Seq<u8>>,
)
    requires
        Some(a) == spec_extract(body, paths),
        Some(b) == spec_extract(body, paths),
    ensures
        a == b,
{
}

/// The canonical signature is order-independent: two position-risk
/// extractions whose (symbol, price) pair strings form the same multiset —
/// the same pairs, in any order — yield the same signature, so repeating an
/// account's position set in a reordered form is still caught as a duplicate.
pub proof fn lemma_signature_order_independent(a: Seq<Seq<u8>>, b: Seq<Seq<u8>>)
    requires
        signature_pairs(a).to_multiset() == signature_pairs(b).to_multiset(),
    ensures
        spec_signature(a) == spec_signature(b),
{
    lemma_lex_total_ordering();
    signature_pairs(a).lemma_sort_by_ensures(lex_order());
    signature_pairs(b).lemma_sort_by_ensures(lex_order());
    vstd::seq_lib::lemma_sorted_unique(
        signature_pairs(a).sort_by(lex_order()),
        signature_pairs(b).sort_by(lex_order()),
        lex_order(),
    );
}

/// A repeated account identity is a duplicate wherever it stands, whatever
/// the rest of the records hold.
pub proof fn lemma_repeated_value_is_duplicate(vs: Seq<Seq<u8>>, i: int, j: int)
    requires
        0 <= i < j < vs.len(),
        vs[i] == vs[j],
    ensures
        has_dup(vs),
{
}

/// The converse: two position-risk extractions whose (symbol, price) pair
/// strings do not form the same multiset — for instance, equal but for one
/// price — yield different signatures, so they are never flagged as
/// duplicates. This holds as long as no pair string contains the comma used
/// to join them (a symbol holding a comma could forge a collision).
pub proof fn lemma_signature_distinguishes(a: Seq<Seq<u8>>, b: Seq<Seq<u8>>)
    requires
        signature_pairs(a).len() == signature_pairs(b).len(),
        forall|j: int|
            0 <= j < signature_pairs(a).len() ==> crate::text::lacks_byte(
                #[trigger] signature_pairs(a)[j],
                44,
            ),
        forall|j: int|
            0 <= j < signature_pairs(b).len() ==> crate::text::lacks_byte(
                #[trigger] signature_pairs(b)[j],
                44,
            ),
        signature_pairs(a).to_multiset() != signature_pairs(b).to_multiset(),
    ensures
        spec_signature(a) != spec_signature(b),
{
    lemma_lex_total_ordering();
    let pa = signature_pairs(a);
    let pb = signature_pairs(b);
    pa.lemma_sort_by_ensures(lex_order());
    pb.lemma_sort_by_ensures(lex_order());
    let sa = pa.sort_by(lex_order());
    let sb = pb.sort_by(lex_order());
    broadcast use vstd::seq_lib::group_to_multiset_ensures;

    assert(pa.to_multiset().len() == pa.len());
    assert(sa.to_multiset().len() == sa.len());
    assert(pb.to_multiset().len() == pb.len());
    assert(sb.to_multiset().len() == sb.len());
    assert forall|j: int| 0 <= j < sa.len() implies crate::text::lacks_byte(
        #[trigger] sa[j],
        44,
    ) by {
        assert(sa.contains(sa[j]));
        assert(pa.contains(sa[j]));
        let w = choose|w: int| 0 <= w < pa.len() && pa[w] == sa[j];
        assert(crate::text::lacks_byte(pa[w], 44));
    }
    assert forall|j: int| 0 <= j < sb.len() implies crate::text::lacks_byte(
        #[trigger] sb[j],
        44,
    ) by {
        assert(sb.contains(sb[j]));
        assert(pb.contains(sb[j]));
        let w = choose|w: int| 0 <= w < pb.len() && pb[w] == sb[j];
        assert(crate::text::lacks_byte(pb[w], 44));
    }
    if spec_signature(a) == spec_signature(b) {
        crate::text::lemma_join_comma_injective(sa, sb);
        assert(pa.to_multiset() == pb.to_multiset());
    }
}

/// For single-position extractions with the same symbol, a different price
/// text gives a different signature: such calls are not flagged as
/// duplicates.
pub proof fn lemma_single_record_price_distinguishes(a: Seq<Seq<u8>>, b: Seq<Seq<u8>>)
    requires
        a.len() == 2,
        b.len() == 2,
        upper_bytes(trim_quotes(a[0])) == upper_bytes(trim_quotes(b[0])),
        trim_quotes(a[1]) != trim_quotes(b[1]),
    ensures
        spec_signature(a) != spec_signature(b),
{
    broadcast use vstd::seq_lib::group_to_multiset_ensures;

    lemma_lex_total_ordering();
    let pa = signature_pairs(a);
    let pb = signature_pairs(b);
    let sym = upper_bytes(trim_quotes(a[0]));
    let price_a = trim_quotes(a[1]);
    let price_b = trim_quotes(b[1]);
    assert(pa.len() == 1 && pa[0] == sym + seq![58u8] + price_a);
    assert(pb.len() == 1 && pb[0] == sym + seq![58u8] + price_b);
    pa.lemma_sort_by_ensures(lex_order());
    pb.lemma_sort_by_ensures(lex_order());
    let sa = pa.sort_by(lex_order());
    let sb = pb.sort_by(lex_order());
    assert(pa.to_multiset().len() == pa.len());
    assert(sa.to_multiset().len() == sa.len());
    assert(pb.to_multiset().len() == pb.len());
    assert(sb.to_multiset().len() == sb.len());
    assert(sa.len() == 1);
    assert(sb.len() == 1);
    assert(sa.to_multiset().contains(sa[0]));
    assert(pa.contains(sa[0]));
    assert(sa[0] == pa[0]);
    assert(sb.to_multiset().contains(sb[0]));
    assert(pb.contains(sb[0]));
    assert(sb[0] == pb[0]);
    assert(join_comma(sa) == pa[0]);
    assert(join_comma(sb) == pb[0]);
    if spec_signature(a) == spec_signature(b) {
        let wa = pa[0];
        let wb = pb[0];
        assert(wa == wb);
        assert(wa.len() == sym.len() + 1 + price_a.len());
        assert(wb.len() == sym.len() + 1 + price_b.len());
        assert(price_a.len() == price_b.len());
        assert forall|k: int| 0 <= k < price_a.len() implies price_a[k] == price_b[k] by {
            assert(wa[sym.len() + 1 + k] == price_a[k]);
            assert(wb[sym.len() + 1 + k] == price_b[k]);
        }
        assert(price_a =~= price_b);
    }
}

} // verus!
