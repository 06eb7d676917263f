//! The orchestrator: splits the attestation payload into its two subsystem
//! payloads, runs the margin validator and then the spot validator against
//! one shared accumulator, reduces the accumulator into the categorized
//! output table, and commits a status code with the result.
use crate::amount::{add_clamped, clamp_add};
use crate::errors::{ZkError, ZkErrorCode};
use crate::extract::{json_get, json_parse, json_text, key_field, parse_text};
use crate::request::fold_min_ts;
use crate::rules::{
    balance_url, is_stable, is_stable_symbol, risk_url, spot_balance_url, stable_label,
    stable_label_bytes,
};
use crate::table::{
    lemma_key_index_at, lemma_lookup_push, lemma_store_lookup, table_lookup, BalanceTable,
};
use crate::text::views;
use crate::types::{AttestationMetaStruct, PublicValuesStruct, Transcript};
use crate::validate::{
    lemma_stop_clean, margin_errs, margin_fold, margin_result, meta_of, spot_errs, spot_fold,
    spot_result, validate_margin, validate_spot,
};
use vstd::prelude::*;

verus! {

/// What splitting the attestation payload yields for the margin subsystem:
/// the `unified` sub-document's text, or the first failing step's error.
pub open spec fn unified_of(att: Seq<u8>) -> Result<Seq<u8>, ZkErrorCode> {
    match parse_text(att) {
        None => Err(ZkErrorCode::ParseAttestationData),
        Some(doc) => match key_field(doc, "unified"@) {
            Some(u) => Ok(u),
            None => Err(ZkErrorCode::GetUnifiedDataFail),
        },
    }
}

/// What splitting the attestation payload yields for the spot subsystem.
pub open spec fn spot_of(att: Seq<u8>) -> Result<Seq<u8>, ZkErrorCode> {
    match parse_text(att) {
        None => Err(ZkErrorCode::ParseAttestationData),
        Some(doc) => match key_field(doc, "spot"@) {
            Some(v) => Ok(v),
            None => Err(ZkErrorCode::GetSpotDataFail),
        },
    }
}

/// What the whole run yields: the first failing step's error, in step order —
/// configuration parse, payload split, margin validation, spot split, spot
/// validation — or nothing when the run succeeds.
pub open spec fn pipeline_result(
    att: Seq<u8>,
    cfg: Seq<u8>,
    unified_outcome: Result<Transcript, Vec<u8>>,
    spot_outcome: Result<Transcript, Vec<u8>>,
) -> Option<ZkErrorCode> {
    if parse_text(cfg) is None {
        Some(ZkErrorCode::ParseConfigData)
    } else {
        match unified_of(att) {
            Err(c) => Some(c),
            Ok(u) => match margin_result(u, unified_outcome) {
                Some(c) => Some(c),
                None => match spot_of(att) {
                    Err(c) => Some(c),
                    Ok(s) => spot_result(s, spot_outcome),
                },
            },
        }
    }
}

/// Checks that the configuration payload is a well-formed document; that is
/// the one way it can fail.
pub fn check_config(cfg: &[u8]) -> (r: Result<(), ZkError>)
    ensures
        r is Ok <==> parse_text(cfg@) is Some,
        r matches Err(e) ==> e.kind == ZkErrorCode::ParseConfigData,
{
    match json_parse(cfg) {
        Ok(_) => Ok(()),
        Err(detail) => Err(ZkError::with_detail(ZkErrorCode::ParseConfigData, detail)),
    }
}

/// Extracts the margin subsystem's payload (the `unified` sub-document).
pub fn get_unified_payload(att: &[u8]) -> (r: Result<Vec<u8>, ZkError>)
    ensures
        r matches Ok(v) ==> unified_of(att@) == Ok::<_, ZkErrorCode>(v@),
        r matches Err(e) ==> unified_of(att@) == Err::<Seq<u8>, _>(e.kind),
{
    let doc = match json_parse(att) {
        Ok(d) => d,
        Err(detail) => {
            return Err(ZkError::with_detail(ZkErrorCode::ParseAttestationData, detail));
        },
    };
    match json_get(&doc, "unified") {
        Some(v) => Ok(json_text(v)),
        None => Err(ZkError::plain(ZkErrorCode::GetUnifiedDataFail)),
    }
}

/// Extracts the spot subsystem's payload (the `spot` sub-document).
pub fn get_spot_payload(att: &[u8]) -> (r: Result<Vec<u8>, ZkError>)
    ensures
        r matches Ok(v) ==> spot_of(att@) == Ok::<_, ZkErrorCode>(v@),
        r matches Err(e) ==> spot_of(att@) == Err::<Seq<u8>, _>(e.kind),
{
    let doc = match json_parse(att) {
        Ok(d) => d,
        Err(detail) => {
            return Err(ZkError::with_detail(ZkErrorCode::ParseAttestationData, detail));
        },
    };
    match json_get(&doc, "spot") {
        Some(v) => Ok(json_text(v)),
        None => Err(ZkError::plain(ZkErrorCode::GetSpotDataFail)),
    }
}

/// The clamped sum of the amounts under stablecoin keys, in table order.
pub open spec fn stable_sum(es: Seq<(Seq<u8>, int)>) -> int
    decreases es.len(),
{
    if es.len() == 0 {
        0
    } else {
        let rest = stable_sum(es.drop_last());
        if is_stable(es.last().0) {
            clamp_add(rest, es.last().1)
        } else {
            rest
        }
    }
}

/// No stablecoin symbol has the length of the pooled label, so the label can
/// never itself be pooled.
pub proof fn lemma_label_not_stable()
    ensures
        !is_stable(stable_label()),
{
    reveal_strlit("STABLECOIN");
    reveal_strlit("USDT");
    reveal_strlit("USDC");
    reveal_strlit("FDUSD");
    reveal_strlit("TUSD");
    reveal_strlit("USDE");
    reveal_strlit("XUSD");
    reveal_strlit("USD1");
    reveal_strlit("BFUSD");
    reveal_strlit("USDP");
    reveal_strlit("DAI");
    assert(stable_label().len() == 10);
    assert forall|j: int| 0 <= j < crate::rules::stable_coins().len() implies (
    #[trigger] crate::rules::stable_coins()[j]).len() != 10 by {
        assert(crate::rules::stable_coins()[0].len() == 4);
        assert(crate::rules::stable_coins()[1].len() == 4);
        assert(crate::rules::stable_coins()[2].len() == 5);
        assert(crate::rules::stable_coins()[3].len() == 4);
        assert(crate::rules::stable_coins()[4].len() == 4);
        assert(crate::rules::stable_coins()[5].len() == 4);
        assert(crate::rules::stable_coins()[6].len() == 4);
        assert(crate::rules::stable_coins()[7].len() == 5);
        assert(crate::rules::stable_coins()[8].len() == 4);
        assert(crate::rules::stable_coins()[9].len() == 3);
    }
    if is_stable(stable_label()) {
        let j = choose|j: int|
            0 <= j < crate::rules::stable_coins().len() && crate::rules::stable_coins()[j]
                == stable_label();
        assert(crate::rules::stable_coins()[j].len() == 10);
    }
}

/// Reduces the accumulator into the committed table: every stablecoin's
/// amount is pooled under the reserved label (present even when zero), and
/// every other asset keeps its own entry.
#[verifier::loop_isolation(false)]
pub fn categorize(acc: &BalanceTable) -> (out: BalanceTable)
    requires
        acc.wf(),
    ensures
        out.wf(),
        table_lookup(out.entries(), stable_label()) == Some(stable_sum(acc.entries())),
        forall|k: Seq<u8>| is_stable(k) ==> table_lookup(out.entries(), k) is None,
        forall|k: Seq<u8>|
            !is_stable(k) && k != stable_label() ==> table_lookup(out.entries(), k)
                == table_lookup(acc.entries(), k),
{
    let mut out = BalanceTable::new();
    let mut sum: i128 = 0;
    let n = acc.len();
    let mut i: usize = 0;
    proof {
        lemma_label_not_stable();
        assert(acc.entries().subrange(0, 0) =~= Seq::<(Seq<u8>, int)>::empty());
    }
    while i < n
        invariant
            i <= n,
            out.wf(),
            sum as int == stable_sum(acc.entries().subrange(0, i as int)),
            forall|k: Seq<u8>| is_stable(k) ==> table_lookup(out.entries(), k) is None,
            forall|k: Seq<u8>|
                !is_stable(k) ==> table_lookup(out.entries(), k) == table_lookup(
                    acc.entries().subrange(0, i as int),
                    k,
                ),
        decreases n - i,
    {
        let key = acc.key_at(i).clone();
        let v = acc.amount_at(i);
        let ghost pre = acc.entries().subrange(0, i as int);
        let ghost now = acc.entries().subrange(0, i + 1);
        proof {
            assert(now.drop_last() =~= pre);
            assert(now.last() == acc.entries()[i as int]);
            assert(acc.entries()[i as int].0 == key@);
            assert(acc.entries()[i as int].1 == v as int);
        }
        if is_stable_symbol(&key) {
            sum = add_clamped(sum, v);
            proof {
                assert forall|k: Seq<u8>|
                    !is_stable(k) implies table_lookup(out.entries(), k) == table_lookup(
                    now,
                    k,
                ) by {
                    lemma_lookup_push(pre, acc.entries()[i as int], k);
                    assert(now =~= pre.push(acc.entries()[i as int]));
                }
            }
        } else {
            let ghost out_pre = out.entries();
            out.store(key, v);
            proof {
                assert(now =~= pre.push(acc.entries()[i as int]));
                assert forall|k: Seq<u8>| is_stable(k) implies table_lookup(out.entries(), k)
                    is None by {
                    lemma_store_lookup(out_pre, key@, v as int, k);
                }
                assert forall|k: Seq<u8>|
                    !is_stable(k) implies table_lookup(out.entries(), k) == table_lookup(
                    now,
                    k,
                ) by {
                    lemma_store_lookup(out_pre, key@, v as int, k);
                    lemma_lookup_push(pre, acc.entries()[i as int], k);
                    if k == key@ {
                        assert forall|j: int| 0 <= j < i implies (#[trigger] pre[j]).0 != k by {
                            assert(acc.entries()[j].0 != acc.entries()[i as int].0);
                        }
                        lemma_key_index_at(now, k, i as int);
                    }
                }
            }
        }
        i += 1;
    }
    proof {
        assert(acc.entries().subrange(0, n as int) =~= acc.entries());
    }
    let ghost out_pre = out.entries();
    let label = stable_label_bytes();
    out.store(label, sum);
    proof {
        assert forall|k: Seq<u8>| is_stable(k) implies table_lookup(out.entries(), k) is None by {
            lemma_store_lookup(out_pre, stable_label(), sum as int, k);
        }
        assert forall|k: Seq<u8>|
            !is_stable(k) && k != stable_label() implies table_lookup(out.entries(), k)
            == table_lookup(acc.entries(), k) by {
            lemma_store_lookup(out_pre, stable_label(), sum as int, k);
        }
        lemma_store_lookup(out_pre, stable_label(), sum as int, stable_label());
    }
    out
}

/// The whole accumulator of a successful run: the margin transcript's
/// balances folded first, the spot transcript's on top.
pub open spec fn total_fold(
    unified_outcome: Result<Transcript, Vec<u8>>,
    spot_outcome: Result<Transcript, Vec<u8>>,
) -> Seq<(Seq<u8>, int)> {
    match (unified_outcome, spot_outcome) {
        (Ok(tu), Ok(tw)) => spot_fold(
            margin_fold(
                Seq::empty(),
                views(tu.urls@),
                views(tu.bodies@),
                tu.urls@.len() as int,
            ),
            views(tw.urls@),
            views(tw.bodies@),
            tw.urls@.len() as int,
        ),
        _ => Seq::empty(),
    }
}

/// What the committed output holds on success: two metadata records in
/// fixed order, each carrying its payload's identity fields, its permitted
/// endpoints and its minimum request timestamp; and the categorized balance
/// table of both transcripts' folded balances, stablecoins pooled.
pub open spec fn committed_success(
    pv: PublicValuesStruct,
    att: Seq<u8>,
    unified_outcome: Result<Transcript, Vec<u8>>,
    spot_outcome: Result<Transcript, Vec<u8>>,
) -> bool {
    &&& pv.attestation_meta@.len() == 2
    &&& (unified_of(att) matches Ok(u) && meta_of(u) matches Ok(f) && pv.attestation_meta@[0].task_id@
        == f.0 && pv.attestation_meta@[0].report_tx_hash@ == f.1
        && pv.attestation_meta@[0].attestor@ == f.2)
    &&& views(pv.attestation_meta@[0].base_urls@) == seq![risk_url(), balance_url()]
    &&& (unified_outcome matches Ok(tu) && pv.attestation_meta@[0].timestamp == fold_min_ts(
        views(tu.urls@),
    ))
    &&& (spot_of(att) matches Ok(s) && meta_of(s) matches Ok(g) && pv.attestation_meta@[1].task_id@
        == g.0 && pv.attestation_meta@[1].report_tx_hash@ == g.1
        && pv.attestation_meta@[1].attestor@ == g.2)
    &&& views(pv.attestation_meta@[1].base_urls@) == seq![spot_balance_url()]
    &&& (spot_outcome matches Ok(tw) && pv.attestation_meta@[1].timestamp == fold_min_ts(
        views(tw.urls@),
    ))
    &&& table_lookup(pv.asset_balance.entries(), stable_label()) == Some(
        stable_sum(total_fold(unified_outcome, spot_outcome)),
    )
    &&& (forall|k: Seq<u8>|
        is_stable(k) ==> table_lookup(pv.asset_balance.entries(), k) is None)
    &&& (forall|k: Seq<u8>|
        !is_stable(k) && k != stable_label() ==> table_lookup(pv.asset_balance.entries(), k)
            == table_lookup(total_fold(unified_outcome, spot_outcome), k))
}

fn run_inner(
    pv: &mut PublicValuesStruct,
    att: &[u8],
    cfg: &[u8],
    unified_outcome: &Result<Transcript, Vec<u8>>,
    spot_outcome: &Result<Transcript, Vec<u8>>,
) -> (r: Result<(), ZkError>)
    requires
        old(pv).asset_balance.wf(),
        old(pv).attestation_meta@.len() == 0,
    ensures
        final(pv).asset_balance.wf(),
        final(pv).status == old(pv).status,
        r is Ok <==> pipeline_result(att@, cfg@, *unified_outcome, *spot_outcome) is None,
        r matches Err(e) ==> Some(e.kind) == pipeline_result(
            att@,
            cfg@,
            *unified_outcome,
            *spot_outcome,
        ),
        r is Ok ==> committed_success(*final(pv), att@, *unified_outcome, *spot_outcome),
{
    match check_config(cfg) {
        Ok(()) => (),
        Err(e) => {
            return Err(e);
        },
    }
    let unified = match get_unified_payload(att) {
        Ok(v) => v,
        Err(e) => {
            return Err(e);
        },
    };
    let mut acc = BalanceTable::new();
    let mut unified_meta = AttestationMetaStruct::empty();
    let ghost um0 = unified_meta;
    match validate_margin(&mut unified_meta, unified.as_slice(), unified_outcome, &mut acc) {
        Ok(()) => (),
        Err(e) => {
            return Err(e);
        },
    }
    proof {
        assert(views(um0.base_urls@) =~= Seq::<Seq<u8>>::empty());
        assert(views(unified_meta.base_urls@) =~= seq![risk_url(), balance_url()]);
        if let Ok(tu) = unified_outcome {
            lemma_stop_clean(
                margin_errs(views(tu.urls@), views(tu.bodies@)),
                tu.urls@.len() as int,
            );
        }
    }
    pv.attestation_meta.push(unified_meta);
    let spot = match get_spot_payload(att) {
        Ok(v) => v,
        Err(e) => {
            return Err(e);
        },
    };
    let mut spot_meta = AttestationMetaStruct::empty();
    let ghost sm0 = spot_meta;
    match validate_spot(&mut spot_meta, spot.as_slice(), spot_outcome, &mut acc) {
        Ok(()) => (),
        Err(e) => {
            return Err(e);
        },
    }
    proof {
        assert(views(sm0.base_urls@) =~= Seq::<Seq<u8>>::empty());
        assert(views(spot_meta.base_urls@) =~= seq![spot_balance_url()]);
        if let Ok(tw) = spot_outcome {
            lemma_stop_clean(spot_errs(views(tw.urls@), views(tw.bodies@)), tw.urls@.len() as int);
        }
        assert(acc.entries() == total_fold(*unified_outcome, *spot_outcome));
    }
    pv.attestation_meta.push(spot_meta);
    let table = categorize(&acc);
    pv.asset_balance = table;
    Ok(())
}

/// One full run: validates both subsystems against the shared accumulator
/// and commits the public output. The committed status is exactly the first
/// failing step's code, and zero precisely when every check of both
/// subsystems passes; on success the output holds what `committed_success`
/// says, and on failure callers treat every field but the status as
/// untrusted.
pub fn run(
    att: &[u8],
    cfg: &[u8],
    unified_outcome: &Result<Transcript, Vec<u8>>,
    spot_outcome: &Result<Transcript, Vec<u8>>,
) -> (pv: PublicValuesStruct)
    ensures
        pv.asset_balance.wf(),
        pv.status == (match pipeline_result(att@, cfg@, *unified_outcome, *spot_outcome) {
            Some(c) => c.spec_code(),
            None => 0u32,
        }),
        pv.status == 0 ==> committed_success(pv, att@, *unified_outcome, *spot_outcome),
{
    let mut pv = PublicValuesStruct::empty();
    match run_inner(&mut pv, att, cfg, unified_outcome, spot_outcome) {
        Ok(()) => (),
        Err(e) => {
            pv.status = e.code();
        },
    }
    pv
}

} // verus!
