//! The two account-subsystem validators. Each reads the subsystem's claimed
//! payload metadata, takes the external verifier's outcome for that payload,
//! walks the request/response transcript in strict order, folds balances into
//! the shared accumulator, and rejects duplicate source accounts. Every
//! outcome — which error code each violation yields, when success is owed,
//! and the exact final state of the metadata and the accumulator — is stated
//! over the named results of the JSON primitives.
use crate::accounts::{
    build_signature, find_duplicate, fold_balance_triples, has_dup, spec_fold_triples,
    spec_signature,
};
use crate::errors::{ZkError, ZkErrorCode};
use crate::extract::{
    each_field_matches, extract_values, field_matches, index_field, json_as_str, json_get,
    json_get_index, json_parse, key_each_matches, key_field, parse_text, str_content, value_text,
};
use crate::request::{extract_timestamp, fold_min_ts, spec_timestamp};
use crate::rules::{
    balance_url, balance_url_bytes, margin_balance_paths, risk_paths, risk_url, risk_url_bytes,
    spot_balance_paths, spot_balance_url, spot_balance_url_bytes, uid_paths,
};
use crate::table::BalanceTable;
use crate::text::{has_prefix, match_at, trim_quote_bytes, trim_quotes, views};
use crate::types::{AttestationMetaStruct, Transcript};
use vstd::prelude::*;

verus! {

/// The string under `name` in the first element of the payload document's
/// `public_data` array, if every step of that lookup lands.
pub open spec fn public_field(doc: Seq<u8>, name: Seq<char>) -> Option<Seq<u8>> {
    match key_field(doc, "public_data"@) {
        Some(pd) => match index_field(pd, 0) {
            Some(item) => match key_field(item, name) {
                Some(f) => str_content(f),
                None => None,
            },
            None => None,
        },
        None => None,
    }
}

/// What reading a payload's metadata yields: the task id, report transaction
/// hash and attestor address, or the first missing piece's own error.
pub open spec fn meta_of(payload: Seq<u8>) -> Result<(Seq<u8>, Seq<u8>, Seq<u8>), ZkErrorCode> {
    match parse_text(payload) {
        None => Err(ZkErrorCode::ParseAttestationData),
        Some(doc) => match public_field(doc, "taskId"@) {
            None => Err(ZkErrorCode::GetTaskIdFail),
            Some(t) => match public_field(doc, "reportTxHash"@) {
                None => Err(ZkErrorCode::GetReportTxHashFail),
                Some(h) => match public_field(doc, "attestor"@) {
                    None => Err(ZkErrorCode::GetAttestorAddressFail),
                    Some(a) => Ok((t, h, a)),
                },
            },
        },
    }
}

/// The extraction of a position-risk response: all symbols, then all prices.
pub open spec fn risk_matches(doc: Seq<u8>) -> Seq<Seq<u8>> {
    each_field_matches(doc, "symbol"@) + each_field_matches(doc, "entryPrice"@)
}

/// The extraction of a derivatives balance response: assets, wallet
/// balances, unrealized PnL, path-major.
pub open spec fn margin_bal_matches(doc: Seq<u8>) -> Seq<Seq<u8>> {
    each_field_matches(doc, "asset"@) + each_field_matches(doc, "totalWalletBalance"@)
        + each_field_matches(doc, "umUnrealizedPNL"@)
}

/// The extraction of a spot response's account identity.
pub open spec fn uid_matches(doc: Seq<u8>) -> Seq<Seq<u8>> {
    field_matches(doc, "uid"@)
}

/// The extraction of a spot balance response: assets, free, locked,
/// path-major.
pub open spec fn spot_bal_matches(doc: Seq<u8>) -> Seq<Seq<u8>> {
    key_each_matches(doc, "balances"@, "asset"@) + key_each_matches(doc, "balances"@, "free"@)
        + key_each_matches(doc, "balances"@, "locked"@)
}

/// The first failure among the first `i` requests, if any.
pub open spec fn first_error_upto(err: spec_fn(int) -> Option<ZkErrorCode>, i: int) -> Option<
    ZkErrorCode,
>
    decreases i,
{
    if i <= 0 {
        None
    } else {
        match first_error_upto(err, i - 1) {
            Some(c) => Some(c),
            None => err(i - 1),
        }
    }
}

/// How many requests the walk processes: all of them, or up to and excluding
/// the first failing one.
pub open spec fn stop_upto(err: spec_fn(int) -> Option<ZkErrorCode>, i: int) -> int
    decreases i,
{
    if i <= 0 {
        0
    } else {
        let s = stop_upto(err, i - 1);
        if s < i - 1 {
            s
        } else if err(i - 1) is Some {
            i - 1
        } else {
            i
        }
    }
}

proof fn lemma_first_error_at(err: spec_fn(int) -> Option<ZkErrorCode>, i: int, n: int)
    requires
        0 <= i < n,
        first_error_upto(err, i) is None,
        err(i) is Some,
    ensures
        first_error_upto(err, n) == err(i),
        stop_upto(err, n) == i,
    decreases n,
{
    lemma_stop_clean(err, i);
    if n - 1 > i {
        lemma_first_error_at(err, i, n - 1);
    }
}

/// A walk with no failing request processes every request.
pub proof fn lemma_stop_clean(err: spec_fn(int) -> Option<ZkErrorCode>, n: int)
    requires
        n >= 0,
        first_error_upto(err, n) is None,
    ensures
        stop_upto(err, n) == n,
    decreases n,
{
    if n > 0 {
        lemma_stop_clean(err, n - 1);
    }
}

/// What processing one margin request yields: its first violated rule's
/// error, in check order, or nothing.
pub open spec fn margin_req_error(url: Seq<u8>, body: Seq<u8>, i: int) -> Option<ZkErrorCode> {
    match spec_timestamp(url) {
        Err(c) => Some(c),
        Ok(_) => if match_at(url, risk_url(), 0) {
            if i % 2 != 0 {
                Some(ZkErrorCode::InvalidRequestOrder)
            } else {
                match parse_text(body) {
                    None => Some(ZkErrorCode::GetJsonValueFail),
                    Some(doc) => if risk_matches(doc).len() % 2 != 0 {
                        Some(ZkErrorCode::InvalidJsonValueSize)
                    } else {
                        None
                    },
                }
            }
        } else if match_at(url, balance_url(), 0) {
            match parse_text(body) {
                None => Some(ZkErrorCode::GetJsonValueFail),
                Some(doc) => if margin_bal_matches(doc).len() % 3 != 0 {
                    Some(ZkErrorCode::InvalidJsonValueSize)
                } else {
                    None
                },
            }
        } else {
            Some(ZkErrorCode::InvalidRequestUrl)
        },
    }
}

pub open spec fn margin_errs(urls: Seq<Seq<u8>>, bodies: Seq<Seq<u8>>) -> spec_fn(int) -> Option<
    ZkErrorCode,
> {
    |k: int| margin_req_error(urls[k], bodies[k], k)
}

/// The position-set signatures of the first `i` margin requests.
pub open spec fn margin_sigs(urls: Seq<Seq<u8>>, bodies: Seq<Seq<u8>>, i: int) -> Seq<Seq<u8>>
    decreases i,
{
    if i <= 0 {
        Seq::empty()
    } else {
        let prev = margin_sigs(urls, bodies, i - 1);
        if match_at(urls[i - 1], risk_url(), 0) {
            match parse_text(bodies[i - 1]) {
                Some(doc) => prev.push(spec_signature(risk_matches(doc))),
                None => prev,
            }
        } else {
            prev
        }
    }
}

/// The accumulator after the balance responses among the first `i` margin
/// requests are folded in.
pub open spec fn margin_fold(
    es: Seq<(Seq<u8>, int)>,
    urls: Seq<Seq<u8>>,
    bodies: Seq<Seq<u8>>,
    i: int,
) -> Seq<(Seq<u8>, int)>
    decreases i,
{
    if i <= 0 {
        es
    } else {
        let prev = margin_fold(es, urls, bodies, i - 1);
        if !match_at(urls[i - 1], risk_url(), 0) && match_at(urls[i - 1], balance_url(), 0) {
            match parse_text(bodies[i - 1]) {
                Some(doc) => if margin_bal_matches(doc).len() % 3 == 0 {
                    spec_fold_triples(prev, margin_bal_matches(doc))
                } else {
                    prev
                },
                None => prev,
            }
        } else {
            prev
        }
    }
}

/// What the margin validator yields: the first violated rule's error, in the
/// order the rules are applied, or nothing when all of them hold.
pub open spec fn margin_result(payload: Seq<u8>, outcome: Result<Transcript, Vec<u8>>) -> Option<
    ZkErrorCode,
> {
    match meta_of(payload) {
        Err(c) => Some(c),
        Ok(_) => match outcome {
            Err(_) => Some(ZkErrorCode::VerifyAttestation),
            Ok(t) => {
                let urls = views(t.urls@);
                let bodies = views(t.bodies@);
                let n = urls.len() as int;
                if urls.len() % 2 != 0 {
                    Some(ZkErrorCode::InvalidRequestLength)
                } else if urls.len() != bodies.len() {
                    Some(ZkErrorCode::InvalidMessagesLength)
                } else if first_error_upto(margin_errs(urls, bodies), n) is Some {
                    first_error_upto(margin_errs(urls, bodies), n)
                } else if has_dup(margin_sigs(urls, bodies, n)) {
                    Some(ZkErrorCode::DuplicateAccount)
                } else {
                    None
                }
            },
        },
    }
}

/// Whether the margin validator reaches its transcript walk.
pub open spec fn margin_enters_walk(payload: Seq<u8>, outcome: Result<Transcript, Vec<u8>>) -> bool {
    meta_of(payload) is Ok && match outcome {
        Ok(t) => t.urls@.len() % 2 == 0 && t.urls@.len() == t.bodies@.len(),
        Err(_) => false,
    }
}

fn first_public_field(doc: &serde_json::Value, name: &str) -> (r: Option<Vec<u8>>)
    ensures
        match r {
            Some(b) => public_field(value_text(*doc), name@) == Some(b@),
            None => public_field(value_text(*doc), name@) is None,
        },
{
    let pd = match json_get(doc, "public_data") {
        Some(x) => x,
        None => {
            return None;
        },
    };
    let item = match json_get_index(pd, 0) {
        Some(x) => x,
        None => {
            return None;
        },
    };
    let field = match json_get(item, name) {
        Some(x) => x,
        None => {
            return None;
        },
    };
    json_as_str(field)
}

/// Reads the task id, report transaction hash and attestor address from the
/// first element of the payload's `public_data` array; the absence of each is
/// its own failure reason.
pub fn read_public_meta(payload: &[u8]) -> (r: Result<(Vec<u8>, Vec<u8>, Vec<u8>), ZkError>)
    ensures
        r matches Ok(v) ==> meta_of(payload@) == Ok::<_, ZkErrorCode>((v.0@, v.1@, v.2@)),
        r matches Err(e) ==> meta_of(payload@) == Err::<(Seq<u8>, Seq<u8>, Seq<u8>), _>(e.kind),
{
    let doc = match json_parse(payload) {
        Ok(d) => d,
        Err(detail) => {
            return Err(ZkError::with_detail(ZkErrorCode::ParseAttestationData, detail));
        },
    };
    let task_id = match first_public_field(&doc, "taskId") {
        Some(v) => v,
        None => {
            return Err(ZkError::plain(ZkErrorCode::GetTaskIdFail));
        },
    };
    let report_tx_hash = match first_public_field(&doc, "reportTxHash") {
        Some(v) => v,
        None => {
            return Err(ZkError::plain(ZkErrorCode::GetReportTxHashFail));
        },
    };
    let attestor = match first_public_field(&doc, "attestor") {
        Some(v) => v,
        None => {
            return Err(ZkError::plain(ZkErrorCode::GetAttestorAddressFail));
        },
    };
    Ok((task_id, report_tx_hash, attestor))
}

/// The margin/derivatives subsystem validator. What it yields is exactly
/// `margin_result`: success precisely when the payload metadata reads, the
/// verifier accepted, the transcript is even and fully paired, every request
/// passes its checks, and no position-set signature repeats; otherwise the
/// first failing check's own code. The metadata and the shared accumulator
/// end in the states the walk prescribes.
#[verifier::loop_isolation(false)]
pub fn validate_margin(
    meta: &mut AttestationMetaStruct,
    payload: &[u8],
    outcome: &Result<Transcript, Vec<u8>>,
    acc: &mut BalanceTable,
) -> (r: Result<(), ZkError>)
    requires
        old(acc).wf(),
    ensures
        final(acc).wf(),
        r is Ok <==> margin_result(payload@, *outcome) is None,
        r matches Err(e) ==> Some(e.kind) == margin_result(payload@, *outcome),
        r matches Err(e) ==> (e.kind == ZkErrorCode::VerifyAttestation ==> (outcome matches Err(m)
            && e.detail@ == m@)),
        meta_of(payload@) matches Ok(f) ==> {
            &&& final(meta).task_id@ == f.0
            &&& final(meta).report_tx_hash@ == f.1
            &&& final(meta).attestor@ == f.2
            &&& views(final(meta).base_urls@) == views(old(meta).base_urls@) + seq![
                risk_url(),
                balance_url(),
            ]
        },
        meta_of(payload@) is Err ==> *final(meta) == *old(meta),
        !margin_enters_walk(payload@, *outcome) ==> final(acc).entries() == old(acc).entries(),
        outcome matches Ok(t) ==> (margin_enters_walk(payload@, *outcome) ==> final(acc).entries()
            == margin_fold(
            old(acc).entries(),
            views(t.urls@),
            views(t.bodies@),
            stop_upto(margin_errs(views(t.urls@), views(t.bodies@)), t.urls@.len() as int),
        )),
        outcome matches Ok(t) ==> (r is Ok ==> {
            &&& t.urls@.len() % 2 == 0
            &&& t.urls@.len() == t.bodies@.len()
            &&& final(meta).timestamp == fold_min_ts(views(t.urls@))
            &&& forall|k: int|
                0 <= k < t.urls@.len() ==> spec_timestamp(#[trigger] views(t.urls@)[k]) is Ok
            &&& forall|k: int|
                0 <= k < t.urls@.len() ==> (match_at(#[trigger] views(t.urls@)[k], risk_url(), 0)
                    ==> k % 2 == 0)
            &&& forall|k: int|
                0 <= k < t.urls@.len() ==> (match_at(#[trigger] views(t.urls@)[k], risk_url(), 0)
                    || match_at(views(t.urls@)[k], balance_url(), 0))
        }),
{
    let (task_id, report_tx_hash, attestor) = match read_public_meta(payload) {
        Ok(x) => x,
        Err(e) => {
            return Err(e);
        },
    };
    meta.task_id = task_id;
    meta.report_tx_hash = report_tx_hash;
    meta.attestor = attestor;
    meta.base_urls.push(risk_url_bytes());
    meta.base_urls.push(balance_url_bytes());
    proof {
        assert(views(meta.base_urls@) =~= views(old(meta).base_urls@) + seq![
            risk_url(),
            balance_url(),
        ]);
    }
    let t = match outcome {
        Ok(t) => t,
        Err(msg) => {
            return Err(ZkError::with_detail(ZkErrorCode::VerifyAttestation, msg.clone()));
        },
    };
    let n = t.urls.len();
    if n % 2 != 0 {
        return Err(ZkError::plain(ZkErrorCode::InvalidRequestLength));
    }
    if n != t.bodies.len() {
        return Err(ZkError::plain(ZkErrorCode::InvalidMessagesLength));
    }
    let ghost urls = views(t.urls@);
    let ghost bodies = views(t.bodies@);
    let ghost errs = margin_errs(urls, bodies);
    let ghost acc0 = acc.entries();
    let ghost m_task = meta.task_id@;
    let ghost m_hash = meta.report_tx_hash@;
    let ghost m_att = meta.attestor@;
    let ghost m_urls = views(meta.base_urls@);
    meta.timestamp = u128::MAX;
    let risk = risk_url_bytes();
    let balance = balance_url_bytes();
    let um_paths = risk_paths();
    let bal_paths = margin_balance_paths();
    let mut sigs: Vec<Vec<u8>> = Vec::new();
    let mut i: usize = 0;
    proof {
        assert(views(t.urls@).subrange(0, 0) =~= Seq::<Seq<u8>>::empty());
        assert(views(sigs@) =~= margin_sigs(urls, bodies, 0));
    }
    while i < n
        invariant
            i <= n,
            acc.wf(),
            meta.task_id@ == m_task,
            meta.report_tx_hash@ == m_hash,
            meta.attestor@ == m_att,
            views(meta.base_urls@) == m_urls,
            meta.timestamp == fold_min_ts(urls.subrange(0, i as int)),
            first_error_upto(errs, i as int) is None,
            views(sigs@) == margin_sigs(urls, bodies, i as int),
            acc.entries() == margin_fold(acc0, urls, bodies, i as int),
            forall|k: int| 0 <= k < i ==> spec_timestamp(#[trigger] urls[k]) is Ok,
            forall|k: int|
                0 <= k < i ==> (match_at(#[trigger] urls[k], risk_url(), 0) ==> k % 2 == 0),
            forall|k: int|
                0 <= k < i ==> (match_at(#[trigger] urls[k], risk_url(), 0) || match_at(
                    urls[k],
                    balance_url(),
                    0,
                )),
        decreases n - i,
    {
        let ts = match extract_timestamp(t.urls[i].as_slice()) {
            Ok(v) => v,
            Err(code) => {
                proof {
                    lemma_first_error_at(errs, i as int, n as int);
                }
                return Err(ZkError::plain(code));
            },
        };
        if ts < meta.timestamp {
            meta.timestamp = ts;
        }
        proof {
            assert(urls.subrange(0, i + 1).drop_last() =~= urls.subrange(0, i as int));
            assert(urls.subrange(0, i + 1).last() == urls[i as int]);
        }
        if has_prefix(t.urls[i].as_slice(), risk.as_slice()) {
            if i % 2 != 0 {
                proof {
                    lemma_first_error_at(errs, i as int, n as int);
                }
                return Err(ZkError::plain(ZkErrorCode::InvalidRequestOrder));
            }
            let vals = match extract_values(t.bodies[i].as_slice(), &um_paths) {
                Ok(v) => v,
                Err(e) => {
                    proof {
                        lemma_first_error_at(errs, i as int, n as int);
                    }
                    return Err(e);
                },
            };
            proof {
                reveal_with_fuel(crate::extract::paths_matches_upto, 3);
                let doc = parse_text(bodies[i as int]).unwrap();
                assert(crate::extract::paths_matches_upto(doc, um_paths@, 2) =~= risk_matches(
                    doc,
                ));
            }
            if vals.len() % 2 != 0 {
                proof {
                    lemma_first_error_at(errs, i as int, n as int);
                }
                return Err(ZkError::plain(ZkErrorCode::InvalidJsonValueSize));
            }
            let sig = build_signature(&vals);
            sigs.push(sig);
            proof {
                assert(views(sigs@) =~= margin_sigs(urls, bodies, i + 1));
            }
        } else if has_prefix(t.urls[i].as_slice(), balance.as_slice()) {
            let vals = match extract_values(t.bodies[i].as_slice(), &bal_paths) {
                Ok(v) => v,
                Err(e) => {
                    proof {
                        lemma_first_error_at(errs, i as int, n as int);
                    }
                    return Err(e);
                },
            };
            proof {
                reveal_with_fuel(crate::extract::paths_matches_upto, 4);
                let doc = parse_text(bodies[i as int]).unwrap();
                assert(crate::extract::paths_matches_upto(doc, bal_paths@, 3)
                    =~= margin_bal_matches(doc));
            }
            if vals.len() % 3 != 0 {
                proof {
                    lemma_first_error_at(errs, i as int, n as int);
                }
                return Err(ZkError::plain(ZkErrorCode::InvalidJsonValueSize));
            }
            fold_balance_triples(&vals, acc);
        } else {
            proof {
                lemma_first_error_at(errs, i as int, n as int);
            }
            return Err(ZkError::plain(ZkErrorCode::InvalidRequestUrl));
        }
        i += 1;
    }
    proof {
        assert(urls.subrange(0, n as int) =~= urls);
        lemma_stop_clean(errs, n as int);
    }
    if find_duplicate(&sigs) {
        return Err(ZkError::plain(ZkErrorCode::DuplicateAccount));
    }
    Ok(())
}

/// What processing one spot request yields: its first violated rule's error,
/// in check order — the identity read precedes the balance read — or
/// nothing.
pub open spec fn spot_req_error(url: Seq<u8>, body: Seq<u8>) -> Option<ZkErrorCode> {
    match spec_timestamp(url) {
        Err(c) => Some(c),
        Ok(_) => if !match_at(url, spot_balance_url(), 0) {
            Some(ZkErrorCode::InvalidRequestUrl)
        } else {
            match parse_text(body) {
                None => Some(ZkErrorCode::GetJsonValueFail),
                Some(doc) => if uid_matches(doc).len() != 1 {
                    Some(ZkErrorCode::InvalidJsonValueSize)
                } else if spot_bal_matches(doc).len() % 3 != 0 {
                    Some(ZkErrorCode::InvalidJsonValueSize)
                } else {
                    None
                },
            }
        },
    }
}

pub open spec fn spot_errs(urls: Seq<Seq<u8>>, bodies: Seq<Seq<u8>>) -> spec_fn(int) -> Option<
    ZkErrorCode,
> {
    |k: int| spot_req_error(urls[k], bodies[k])
}

/// The trimmed account identities of the first `i` spot requests.
pub open spec fn spot_uids(urls: Seq<Seq<u8>>, bodies: Seq<Seq<u8>>, i: int) -> Seq<Seq<u8>>
    decreases i,
{
    if i <= 0 {
        Seq::empty()
    } else {
        let prev = spot_uids(urls, bodies, i - 1);
        match parse_text(bodies[i - 1]) {
            Some(doc) => if uid_matches(doc).len() == 1 {
                prev.push(trim_quotes(uid_matches(doc)[0]))
            } else {
                prev
            },
            None => prev,
        }
    }
}

/// The accumulator after the balance tables of the first `i` spot requests
/// are folded in.
pub open spec fn spot_fold(
    es: Seq<(Seq<u8>, int)>,
    urls: Seq<Seq<u8>>,
    bodies: Seq<Seq<u8>>,
    i: int,
) -> Seq<(Seq<u8>, int)>
    decreases i,
{
    if i <= 0 {
        es
    } else {
        let prev = spot_fold(es, urls, bodies, i - 1);
        match parse_text(bodies[i - 1]) {
            Some(doc) => if uid_matches(doc).len() == 1 && spot_bal_matches(doc).len() % 3 == 0 {
                spec_fold_triples(prev, spot_bal_matches(doc))
            } else {
                prev
            },
            None => prev,
        }
    }
}

/// What the spot validator yields, its rules applied in order.
pub open spec fn spot_result(payload: Seq<u8>, outcome: Result<Transcript, Vec<u8>>) -> Option<
    ZkErrorCode,
> {
    match meta_of(payload) {
        Err(c) => Some(c),
        Ok(_) => match outcome {
            Err(_) => Some(ZkErrorCode::VerifyAttestation),
            Ok(t) => {
                let urls = views(t.urls@);
                let bodies = views(t.bodies@);
                let n = urls.len() as int;
                if urls.len() != bodies.len() {
                    Some(ZkErrorCode::InvalidMessagesLength)
                } else if first_error_upto(spot_errs(urls, bodies), n) is Some {
                    first_error_upto(spot_errs(urls, bodies), n)
                } else if has_dup(spot_uids(urls, bodies, n)) {
                    Some(ZkErrorCode::DuplicateAccount)
                } else {
                    None
                }
            },
        },
    }
}

/// Whether the spot validator reaches its transcript walk.
pub open spec fn spot_enters_walk(payload: Seq<u8>, outcome: Result<Transcript, Vec<u8>>) -> bool {
    meta_of(payload) is Ok && match outcome {
        Ok(t) => t.urls@.len() == t.bodies@.len(),
        Err(_) => false,
    }
}

/// The spot subsystem validator. What it yields is exactly `spot_result`:
/// success precisely when the payload metadata reads, the verifier accepted,
/// the transcript is fully paired (no evenness rule here), every request
/// passes its checks, and no account identity repeats; otherwise the first
/// failing check's own code.
#[verifier::loop_isolation(false)]
pub fn validate_spot(
    meta: &mut AttestationMetaStruct,
    payload: &[u8],
    outcome: &Result<Transcript, Vec<u8>>,
    acc: &mut BalanceTable,
) -> (r: Result<(), ZkError>)
    requires
        old(acc).wf(),
    ensures
        final(acc).wf(),
        r is Ok <==> spot_result(payload@, *outcome) is None,
        r matches Err(e) ==> Some(e.kind) == spot_result(payload@, *outcome),
        r matches Err(e) ==> (e.kind == ZkErrorCode::VerifyAttestation ==> (outcome matches Err(m)
            && e.detail@ == m@)),
        meta_of(payload@) matches Ok(f) ==> {
            &&& final(meta).task_id@ == f.0
            &&& final(meta).report_tx_hash@ == f.1
            &&& final(meta).attestor@ == f.2
            &&& views(final(meta).base_urls@) == views(old(meta).base_urls@) + seq![
                spot_balance_url(),
            ]
        },
        meta_of(payload@) is Err ==> *final(meta) == *old(meta),
        !spot_enters_walk(payload@, *outcome) ==> final(acc).entries() == old(acc).entries(),
        outcome matches Ok(t) ==> (spot_enters_walk(payload@, *outcome) ==> final(acc).entries()
            == spot_fold(
            old(acc).entries(),
            views(t.urls@),
            views(t.bodies@),
            stop_upto(spot_errs(views(t.urls@), views(t.bodies@)), t.urls@.len() as int),
        )),
        outcome matches Ok(t) ==> (r is Ok ==> {
            &&& t.urls@.len() == t.bodies@.len()
            &&& final(meta).timestamp == fold_min_ts(views(t.urls@))
            &&& forall|k: int|
                0 <= k < t.urls@.len() ==> spec_timestamp(#[trigger] views(t.urls@)[k]) is Ok
            &&& forall|k: int|
                0 <= k < t.urls@.len() ==> match_at(
                    #[trigger] views(t.urls@)[k],
                    spot_balance_url(),
                    0,
                )
        }),
{
    let (task_id, report_tx_hash, attestor) = match read_public_meta(payload) {
        Ok(x) => x,
        Err(e) => {
            return Err(e);
        },
    };
    meta.task_id = task_id;
    meta.report_tx_hash = report_tx_hash;
    meta.attestor = attestor;
    meta.base_urls.push(spot_balance_url_bytes());
    proof {
        assert(views(meta.base_urls@) =~= views(old(meta).base_urls@) + seq![spot_balance_url()]);
    }
    let t = match outcome {
        Ok(t) => t,
        Err(msg) => {
            return Err(ZkError::with_detail(ZkErrorCode::VerifyAttestation, msg.clone()));
        },
    };
    let n = t.urls.len();
    if n != t.bodies.len() {
        return Err(ZkError::plain(ZkErrorCode::InvalidMessagesLength));
    }
    let ghost urls = views(t.urls@);
    let ghost bodies = views(t.bodies@);
    let ghost errs = spot_errs(urls, bodies);
    let ghost acc0 = acc.entries();
    let ghost m_task = meta.task_id@;
    let ghost m_hash = meta.report_tx_hash@;
    let ghost m_att = meta.attestor@;
    let ghost m_urls = views(meta.base_urls@);
    meta.timestamp = u128::MAX;
    let spot = spot_balance_url_bytes();
    let id_paths = uid_paths();
    let bal_paths = spot_balance_paths();
    let mut uids: Vec<Vec<u8>> = Vec::new();
    let mut i: usize = 0;
    proof {
        assert(urls.subrange(0, 0) =~= Seq::<Seq<u8>>::empty());
        assert(views(uids@) =~= spot_uids(urls, bodies, 0));
    }
    while i < n
        invariant
            i <= n,
            acc.wf(),
            meta.task_id@ == m_task,
            meta.report_tx_hash@ == m_hash,
            meta.attestor@ == m_att,
            views(meta.base_urls@) == m_urls,
            meta.timestamp == fold_min_ts(urls.subrange(0, i as int)),
            first_error_upto(errs, i as int) is None,
            views(uids@) == spot_uids(urls, bodies, i as int),
            acc.entries() == spot_fold(acc0, urls, bodies, i as int),
            forall|k: int| 0 <= k < i ==> spec_timestamp(#[trigger] urls[k]) is Ok,
            forall|k: int| 0 <= k < i ==> match_at(#[trigger] urls[k], spot_balance_url(), 0),
        decreases n - i,
    {
        let ts = match extract_timestamp(t.urls[i].as_slice()) {
            Ok(v) => v,
            Err(code) => {
                proof {
                    lemma_first_error_at(errs, i as int, n as int);
                }
                return Err(ZkError::plain(code));
            },
        };
        if ts < meta.timestamp {
            meta.timestamp = ts;
        }
        proof {
            assert(urls.subrange(0, i + 1).drop_last() =~= urls.subrange(0, i as int));
            assert(urls.subrange(0, i + 1).last() == urls[i as int]);
        }
        if !has_prefix(t.urls[i].as_slice(), spot.as_slice()) {
            proof {
                lemma_first_error_at(errs, i as int, n as int);
            }
            return Err(ZkError::plain(ZkErrorCode::InvalidRequestUrl));
        }
        let id_vals = match extract_values(t.bodies[i].as_slice(), &id_paths) {
            Ok(v) => v,
            Err(e) => {
                proof {
                    lemma_first_error_at(errs, i as int, n as int);
                }
                return Err(e);
            },
        };
        proof {
            reveal_with_fuel(crate::extract::paths_matches_upto, 2);
            let doc = parse_text(bodies[i as int]).unwrap();
            assert(crate::extract::paths_matches_upto(doc, id_paths@, 1) =~= uid_matches(doc));
        }
        if id_vals.len() != 1 {
            proof {
                lemma_first_error_at(errs, i as int, n as int);
            }
            return Err(ZkError::plain(ZkErrorCode::InvalidJsonValueSize));
        }
        let uid = trim_quote_bytes(id_vals[0].as_slice());
        uids.push(uid);
        proof {
            assert(views(uids@) =~= spot_uids(urls, bodies, i + 1));
        }
        let vals = match extract_values(t.bodies[i].as_slice(), &bal_paths) {
            Ok(v) => v,
            Err(e) => {
                proof {
                    assert(false);
                }
                return Err(e);
            },
        };
        proof {
            reveal_with_fuel(crate::extract::paths_matches_upto, 4);
            let doc = parse_text(bodies[i as int]).unwrap();
            assert(crate::extract::paths_matches_upto(doc, bal_paths@, 3) =~= spot_bal_matches(
                doc,
            ));
        }
        if vals.len() % 3 != 0 {
            proof {
                lemma_first_error_at(errs, i as int, n as int);
            }
            return Err(ZkError::plain(ZkErrorCode::InvalidJsonValueSize));
        }
        fold_balance_triples(&vals, acc);
        i += 1;
    }
    proof {
        assert(urls.subrange(0, n as int) =~= urls);
        lemma_stop_clean(errs, n as int);
    }
    if find_duplicate(&uids) {
        return Err(ZkError::plain(ZkErrorCode::DuplicateAccount));
    }
    Ok(())
}

} // verus!
