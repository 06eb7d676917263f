//! The per-account readings shared by the two subsystem validators: the
//! canonical position-set signature used for duplicate detection, duplicate
//! search itself, and folding extracted (symbol, amount, amount) triples into
//! the shared balance accumulator.
use crate::amount::{add_clamped, amount_of, clamp_add};
use crate::table::{spec_credit, BalanceTable};
use crate::text::{
    join_comma, join_with_commas, lex_order, push_all, sort_lex, to_upper, trim_quote_bytes,
    trim_quotes, upper_bytes, views,
};
use vstd::prelude::*;

verus! {

/// The `SYMBOL:price` pair strings of one position-risk extraction, values
/// taken path-major: symbols first, then the paired prices, kept as raw text.
pub open spec fn signature_pairs(vs: Seq<Seq<u8>>) -> Seq<Seq<u8>> {
    Seq::new(
        vs.len() / 2,
        |j: int|
            upper_bytes(trim_quotes(vs[j])) + seq![58u8] + trim_quotes(vs[vs.len() / 2 + j]),
    )
}

/// The canonical signature of one account's open-position set: its pair
/// strings sorted lexicographically and joined with commas. Two extractions
/// with the same pairs in any order give the same signature.
pub open spec fn spec_signature(vs: Seq<Seq<u8>>) -> Seq<u8> {
    join_comma(signature_pairs(vs).sort_by(lex_order()))
}

/// Builds the canonical signature of one position-risk extraction.
#[verifier::loop_isolation(false)]
pub fn build_signature(vals: &Vec<Vec<u8>>) -> (sig: Vec<u8>)
    requires
        vals@.len() % 2 == 0,
    ensures
        sig@ == spec_signature(views(vals@)),
{
    let size = vals.len() / 2;
    let mut pairs: Vec<Vec<u8>> = Vec::new();
    let mut j: usize = 0;
    proof {
        assert(views(pairs@) =~= signature_pairs(views(vals@)).subrange(0, 0));
    }
    while j < size
        invariant
            j <= size,
            views(pairs@) == signature_pairs(views(vals@)).subrange(0, j as int),
        decreases size - j,
    {
        let mut p = to_upper(trim_quote_bytes(vals[j].as_slice()).as_slice());
        p.push(58);
        let price = trim_quote_bytes(vals[size + j].as_slice());
        push_all(&mut p, &price);
        proof {
            assert(p@ =~= signature_pairs(views(vals@))[j as int]);
        }
        pairs.push(p);
        j += 1;
        proof {
            assert(views(pairs@) =~= signature_pairs(views(vals@)).subrange(0, j as int));
        }
    }
    proof {
        assert(signature_pairs(views(vals@)).subrange(0, size as int) =~= signature_pairs(
            views(vals@),
        ));
    }
    let sorted = sort_lex(&pairs);
    join_with_commas(&sorted)
}

/// Two positions in the sequence hold the same value.
pub open spec fn has_dup(vs: Seq<Seq<u8>>) -> bool {
    exists|i: int, j: int| 0 <= i < j < vs.len() && vs[i] == vs[j]
}

/// Whether any value repeats.
pub fn find_duplicate(items: &Vec<Vec<u8>>) -> (r: bool)
    ensures
        r == has_dup(views(items@)),
{
    let ghost vs = views(items@);
    let mut j: usize = 0;
    while j < items.len()
        invariant
            j <= vs.len(),
            vs == views(items@),
            forall|a: int, b: int| 0 <= a < b < j ==> vs[a] != vs[b],
        decreases vs.len() - j,
    {
        let mut i: usize = 0;
        while i < j
            invariant
                i <= j < vs.len(),
                vs == views(items@),
                forall|a: int| 0 <= a < i ==> vs[a] != vs[j as int],
            decreases j - i,
        {
            if crate::text::bytes_eq(&items[i], &items[j]) {
                assert(vs[i as int] == vs[j as int]);
                return true;
            }
            i += 1;
        }
        j += 1;
    }
    false
}

/// Folding extracted (symbol, first amount, second amount) triples into the
/// accumulator, in extraction order: for each record, the uppercased trimmed
/// symbol is credited with the clamped sum of its two parsed amounts.
pub open spec fn fold_triples_upto(
    es: Seq<(Seq<u8>, int)>,
    vs: Seq<Seq<u8>>,
    j: int,
) -> Seq<(Seq<u8>, int)>
    decreases j,
{
    if j <= 0 {
        es
    } else {
        let size = vs.len() / 3;
        let prev = fold_triples_upto(es, vs, j - 1);
        let key = upper_bytes(trim_quotes(vs[j - 1]));
        let delta = clamp_add(
            amount_of(trim_quotes(vs[size + j - 1])),
            amount_of(trim_quotes(vs[2 * size + j - 1])),
        );
        spec_credit(prev, key, delta)
    }
}

/// The accumulator after folding one extraction's triples.
pub open spec fn spec_fold_triples(
    es: Seq<(Seq<u8>, int)>,
    vs: Seq<Seq<u8>>,
) -> Seq<(Seq<u8>, int)> {
    fold_triples_upto(es, vs, (vs.len() / 3) as int)
}

/// Folds one balance extraction into the accumulator.
#[verifier::loop_isolation(false)]
pub fn fold_balance_triples(vals: &Vec<Vec<u8>>, acc: &mut BalanceTable)
    requires
        vals@.len() % 3 == 0,
        old(acc).wf(),
    ensures
        final(acc).wf(),
        final(acc).entries() == spec_fold_triples(old(acc).entries(), views(vals@)),
{
    let size = vals.len() / 3;
    let mut j: usize = 0;
    while j < size
        invariant
            j <= size,
            acc.wf(),
            acc.entries() == fold_triples_upto(old(acc).entries(), views(vals@), j as int),
        decreases size - j,
    {
        let key = to_upper(trim_quote_bytes(vals[j].as_slice()).as_slice());
        let a = crate::amount::parse_amount(trim_quote_bytes(vals[size + j].as_slice()).as_slice());
        let b = crate::amount::parse_amount(
            trim_quote_bytes(vals[2 * size + j].as_slice()).as_slice(),
        );
        acc.credit(key, add_clamped(a, b));
        j += 1;
    }
}

} // verus!
