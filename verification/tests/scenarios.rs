use zktls_balance::errors::ZkErrorCode;
use zktls_balance::extract::extract_values;
use zktls_balance::pipeline::{categorize, check_config, get_spot_payload, get_unified_payload, run};
use zktls_balance::rules::{margin_balance_paths, risk_paths};
use zktls_balance::table::BalanceTable;
use zktls_balance::types::{AttestationMetaStruct, Transcript};
use zktls_balance::validate::{read_public_meta, validate_margin, validate_spot};

fn bv(s: &str) -> Vec<u8> {
    s.as_bytes().to_vec()
}

fn meta_payload() -> Vec<u8> {
    bv(r#"{"public_data":[{"taskId":"t1","reportTxHash":"0xabc","attestor":"0xdef"}]}"#)
}

fn risk_url(ts: &str) -> Vec<u8> {
    bv(&format!(
        "https://papi.binance.com/papi/v1/um/positionRisk?timestamp={}",
        ts
    ))
}

fn balance_url(ts: &str) -> Vec<u8> {
    bv(&format!(
        "https://papi.binance.com/papi/v1/balance?timestamp={}",
        ts
    ))
}

fn spot_url(ts: &str) -> Vec<u8> {
    bv(&format!(
        "https://api.binance.com/api/v3/account?timestamp={}",
        ts
    ))
}

fn risk_body() -> Vec<u8> {
    bv(r#"[{"symbol":"BTC","entryPrice":"50000"}]"#)
}

fn margin_balance_body() -> Vec<u8> {
    bv(r#"[{"asset":"btc","totalWalletBalance":"1.0","umUnrealizedPNL":"0.5"}]"#)
}

fn spot_body(uid: &str) -> Vec<u8> {
    bv(&format!(
        r#"{{"uid":"{}","balances":[{{"asset":"eth","free":"2.0","locked":"1.0"}}]}}"#,
        uid
    ))
}

#[test]
fn margin_scenario_accumulates() {
    // requests [risk(ts=100), balance(ts=100)] fold BTC 1.0 + 0.5
    let t = Transcript {
        urls: vec![risk_url("100"), balance_url("100")],
        bodies: vec![risk_body(), margin_balance_body()],
    };
    let mut meta = AttestationMetaStruct::empty();
    let mut acc = BalanceTable::new();
    let r = validate_margin(&mut meta, &meta_payload(), &Ok(t), &mut acc);
    assert!(r.is_ok());
    assert_eq!(acc.lookup(&bv("BTC")), Some(150_000_000));
    assert_eq!(acc.len(), 1);
    assert_eq!(meta.timestamp, 100);
    assert_eq!(meta.task_id, bv("t1"));
    assert_eq!(meta.report_tx_hash, bv("0xabc"));
    assert_eq!(meta.attestor, bv("0xdef"));
    assert_eq!(meta.base_urls.len(), 2);
}

#[test]
fn margin_wrong_order_rejected() {
    // [balance, risk]: the position-risk call lands on an odd index
    let t = Transcript {
        urls: vec![balance_url("100"), risk_url("100")],
        bodies: vec![margin_balance_body(), risk_body()],
    };
    let mut meta = AttestationMetaStruct::empty();
    let mut acc = BalanceTable::new();
    let r = validate_margin(&mut meta, &meta_payload(), &Ok(t), &mut acc);
    assert_eq!(r.unwrap_err().kind, ZkErrorCode::InvalidRequestOrder);
}

#[test]
fn margin_odd_request_count_rejected() {
    let t = Transcript {
        urls: vec![risk_url("100")],
        bodies: vec![risk_body()],
    };
    let mut meta = AttestationMetaStruct::empty();
    let mut acc = BalanceTable::new();
    let r = validate_margin(&mut meta, &meta_payload(), &Ok(t), &mut acc);
    assert_eq!(r.unwrap_err().kind, ZkErrorCode::InvalidRequestLength);
}

#[test]
fn margin_message_count_mismatch_rejected() {
    let t = Transcript {
        urls: vec![risk_url("100"), balance_url("100")],
        bodies: vec![risk_body()],
    };
    let mut meta = AttestationMetaStruct::empty();
    let mut acc = BalanceTable::new();
    let r = validate_margin(&mut meta, &meta_payload(), &Ok(t), &mut acc);
    assert_eq!(r.unwrap_err().kind, ZkErrorCode::InvalidMessagesLength);
}

#[test]
fn margin_unknown_url_rejected() {
    let t = Transcript {
        urls: vec![bv("https://evil.example/x?timestamp=1"), balance_url("1")],
        bodies: vec![risk_body(), margin_balance_body()],
    };
    let mut meta = AttestationMetaStruct::empty();
    let mut acc = BalanceTable::new();
    let r = validate_margin(&mut meta, &meta_payload(), &Ok(t), &mut acc);
    assert_eq!(r.unwrap_err().kind, ZkErrorCode::InvalidRequestUrl);
}

#[test]
fn margin_missing_timestamp_rejected() {
    let t = Transcript {
        urls: vec![bv("https://papi.binance.com/papi/v1/um/positionRisk?x=1"), balance_url("1")],
        bodies: vec![risk_body(), margin_balance_body()],
    };
    let mut meta = AttestationMetaStruct::empty();
    let mut acc = BalanceTable::new();
    let r = validate_margin(&mut meta, &meta_payload(), &Ok(t), &mut acc);
    assert_eq!(r.unwrap_err().kind, ZkErrorCode::CannotFoundTimestamp);
}

#[test]
fn margin_bad_timestamp_rejected() {
    let t = Transcript {
        urls: vec![risk_url("12x"), balance_url("1")],
        bodies: vec![risk_body(), margin_balance_body()],
    };
    let mut meta = AttestationMetaStruct::empty();
    let mut acc = BalanceTable::new();
    let r = validate_margin(&mut meta, &meta_payload(), &Ok(t), &mut acc);
    assert_eq!(r.unwrap_err().kind, ZkErrorCode::ParseTimestampFailed);
}

#[test]
fn margin_verifier_rejection_surfaces() {
    let mut meta = AttestationMetaStruct::empty();
    let mut acc = BalanceTable::new();
    let r = validate_margin(&mut meta, &meta_payload(), &Err(bv("bad proof")), &mut acc);
    let e = r.unwrap_err();
    assert_eq!(e.kind, ZkErrorCode::VerifyAttestation);
    assert_eq!(e.code(), 8);
    assert_eq!(e.detail, bv("bad proof"));
}

#[test]
fn margin_unreadable_body_rejected() {
    let t = Transcript {
        urls: vec![risk_url("100"), balance_url("100")],
        bodies: vec![bv("not json"), margin_balance_body()],
    };
    let mut meta = AttestationMetaStruct::empty();
    let mut acc = BalanceTable::new();
    let r = validate_margin(&mut meta, &meta_payload(), &Ok(t), &mut acc);
    assert_eq!(r.unwrap_err().kind, ZkErrorCode::GetJsonValueFail);
}

#[test]
fn ragged_balance_records_rejected() {
    // seven extracted values against three paths: 3 assets, 3 balances, 1 pnl
    let body = bv(
        r#"[{"asset":"a","totalWalletBalance":"1"},{"asset":"b","totalWalletBalance":"2"},{"asset":"c","totalWalletBalance":"3","umUnrealizedPNL":"4"}]"#,
    );
    let vals = extract_values(&body, &margin_balance_paths()).unwrap();
    assert_eq!(vals.len(), 7);
    let t = Transcript {
        urls: vec![risk_url("100"), balance_url("100")],
        bodies: vec![risk_body(), body],
    };
    let mut meta = AttestationMetaStruct::empty();
    let mut acc = BalanceTable::new();
    let r = validate_margin(&mut meta, &meta_payload(), &Ok(t), &mut acc);
    assert_eq!(r.unwrap_err().kind, ZkErrorCode::InvalidJsonValueSize);
}

#[test]
fn ragged_risk_records_rejected() {
    // three extracted values against two paths: 2 symbols, 1 price
    let body = bv(r#"[{"symbol":"A","entryPrice":"1"},{"symbol":"B"}]"#);
    let t = Transcript {
        urls: vec![risk_url("100"), balance_url("100")],
        bodies: vec![body, margin_balance_body()],
    };
    let mut meta = AttestationMetaStruct::empty();
    let mut acc = BalanceTable::new();
    let r = validate_margin(&mut meta, &meta_payload(), &Ok(t), &mut acc);
    assert_eq!(r.unwrap_err().kind, ZkErrorCode::InvalidJsonValueSize);
}

#[test]
fn spot_unknown_url_rejected() {
    let t = Transcript {
        urls: vec![balance_url("1")],
        bodies: vec![spot_body("1")],
    };
    let mut meta = AttestationMetaStruct::empty();
    let mut acc = BalanceTable::new();
    let r = validate_spot(&mut meta, &meta_payload(), &Ok(t), &mut acc);
    assert_eq!(r.unwrap_err().kind, ZkErrorCode::InvalidRequestUrl);
}

#[test]
fn unparseable_balance_contributes_zero() {
    let body = bv(r#"[{"asset":"btc","totalWalletBalance":"oops","umUnrealizedPNL":"0.5"}]"#);
    let t = Transcript {
        urls: vec![risk_url("100"), balance_url("100")],
        bodies: vec![risk_body(), body],
    };
    let mut meta = AttestationMetaStruct::empty();
    let mut acc = BalanceTable::new();
    let r = validate_margin(&mut meta, &meta_payload(), &Ok(t), &mut acc);
    assert!(r.is_ok());
    assert_eq!(acc.lookup(&bv("BTC")), Some(50_000_000));
}

#[test]
fn margin_duplicate_accounts_rejected() {
    // the same position set twice, record order swapped in the second call
    let body_a = bv(r#"[{"symbol":"BTC","entryPrice":"50000"},{"symbol":"eth","entryPrice":"3000"}]"#);
    let body_b = bv(r#"[{"symbol":"ETH","entryPrice":"3000"},{"symbol":"btc","entryPrice":"50000"}]"#);
    let t = Transcript {
        urls: vec![risk_url("1"), balance_url("1"), risk_url("2"), balance_url("2")],
        bodies: vec![body_a, margin_balance_body(), body_b, margin_balance_body()],
    };
    let mut meta = AttestationMetaStruct::empty();
    let mut acc = BalanceTable::new();
    let r = validate_margin(&mut meta, &meta_payload(), &Ok(t), &mut acc);
    assert_eq!(r.unwrap_err().kind, ZkErrorCode::DuplicateAccount);
}

#[test]
fn margin_distinct_prices_pass() {
    let body_a = bv(r#"[{"symbol":"BTC","entryPrice":"50000"}]"#);
    let body_b = bv(r#"[{"symbol":"BTC","entryPrice":"50001"}]"#);
    let t = Transcript {
        urls: vec![risk_url("1"), balance_url("1"), risk_url("2"), balance_url("2")],
        bodies: vec![body_a, margin_balance_body(), body_b, margin_balance_body()],
    };
    let mut meta = AttestationMetaStruct::empty();
    let mut acc = BalanceTable::new();
    let r = validate_margin(&mut meta, &meta_payload(), &Ok(t), &mut acc);
    assert!(r.is_ok());
}

#[test]
fn spot_scenario_accumulates() {
    let t = Transcript {
        urls: vec![spot_url("200")],
        bodies: vec![spot_body("12345")],
    };
    let mut meta = AttestationMetaStruct::empty();
    let mut acc = BalanceTable::new();
    let r = validate_spot(&mut meta, &meta_payload(), &Ok(t), &mut acc);
    assert!(r.is_ok());
    assert_eq!(acc.lookup(&bv("ETH")), Some(300_000_000));
    assert_eq!(meta.timestamp, 200);
    assert_eq!(meta.base_urls.len(), 1);
}

#[test]
fn spot_duplicate_uid_rejected() {
    // two requests with the identical uid, different balances
    let t = Transcript {
        urls: vec![spot_url("1"), spot_url("2")],
        bodies: vec![spot_body("12345"), {
            bv(r#"{"uid":"12345","balances":[{"asset":"sol","free":"9","locked":"0"}]}"#)
        }],
    };
    let mut meta = AttestationMetaStruct::empty();
    let mut acc = BalanceTable::new();
    let r = validate_spot(&mut meta, &meta_payload(), &Ok(t), &mut acc);
    assert_eq!(r.unwrap_err().kind, ZkErrorCode::DuplicateAccount);
}

#[test]
fn spot_missing_uid_rejected() {
    let t = Transcript {
        urls: vec![spot_url("1")],
        bodies: vec![bv(r#"{"balances":[]}"#)],
    };
    let mut meta = AttestationMetaStruct::empty();
    let mut acc = BalanceTable::new();
    let r = validate_spot(&mut meta, &meta_payload(), &Ok(t), &mut acc);
    assert_eq!(r.unwrap_err().kind, ZkErrorCode::InvalidJsonValueSize);
}

#[test]
fn extraction_is_repeatable() {
    let body = risk_body();
    let a = extract_values(&body, &risk_paths()).unwrap();
    let b = extract_values(&body, &risk_paths()).unwrap();
    assert_eq!(a, b);
    assert_eq!(a, vec![bv("\"BTC\""), bv("\"50000\"")]);
}

#[test]
fn meta_field_errors_are_distinct() {
    assert_eq!(
        read_public_meta(b"not json").unwrap_err().kind,
        ZkErrorCode::ParseAttestationData
    );
    assert_eq!(
        read_public_meta(br#"{"public_data":[{}]}"#).unwrap_err().kind,
        ZkErrorCode::GetTaskIdFail
    );
    assert_eq!(
        read_public_meta(br#"{"public_data":[{"taskId":"t"}]}"#)
            .unwrap_err()
            .kind,
        ZkErrorCode::GetReportTxHashFail
    );
    assert_eq!(
        read_public_meta(br#"{"public_data":[{"taskId":"t","reportTxHash":"h"}]}"#)
            .unwrap_err()
            .kind,
        ZkErrorCode::GetAttestorAddressFail
    );
}

#[test]
fn config_and_split_errors() {
    assert_eq!(
        check_config(b"{").unwrap_err().kind,
        ZkErrorCode::ParseConfigData
    );
    assert_eq!(
        get_unified_payload(br#"{"spot":{}}"#).unwrap_err().kind,
        ZkErrorCode::GetUnifiedDataFail
    );
    assert_eq!(
        get_spot_payload(br#"{"unified":{}}"#).unwrap_err().kind,
        ZkErrorCode::GetSpotDataFail
    );
}

#[test]
fn categorize_pools_stablecoins() {
    let mut acc = BalanceTable::new();
    acc.credit(bv("USDT"), 100);
    acc.credit(bv("BTC"), 50);
    acc.credit(bv("DAI"), 25);
    let out = categorize(&acc);
    assert_eq!(out.lookup(&bv("STABLECOIN")), Some(125));
    assert_eq!(out.lookup(&bv("BTC")), Some(50));
    assert_eq!(out.lookup(&bv("USDT")), None);
    assert_eq!(out.lookup(&bv("DAI")), None);
}

#[test]
fn categorize_pooled_label_present_when_zero() {
    let mut acc = BalanceTable::new();
    acc.credit(bv("BTC"), 50);
    let out = categorize(&acc);
    assert_eq!(out.lookup(&bv("STABLECOIN")), Some(0));
}

#[test]
fn full_run_success() {
    let margin_t = Transcript {
        urls: vec![risk_url("100"), balance_url("100")],
        bodies: vec![risk_body(), margin_balance_body()],
    };
    let spot_t = Transcript {
        urls: vec![spot_url("200")],
        bodies: vec![spot_body("12345")],
    };
    let att = bv(&format!(
        r#"{{"unified":{u},"spot":{s}}}"#,
        u = String::from_utf8(meta_payload()).unwrap(),
        s = String::from_utf8(meta_payload()).unwrap()
    ));
    let pv = run(&att, b"{}", &Ok(margin_t), &Ok(spot_t));
    assert_eq!(pv.status, 0);
    assert_eq!(pv.attestation_meta.len(), 2);
    assert_eq!(pv.attestation_meta[0].base_urls.len(), 2);
    assert_eq!(pv.attestation_meta[1].base_urls.len(), 1);
    assert_eq!(pv.asset_balance.lookup(&bv("BTC")), Some(150_000_000));
    assert_eq!(pv.asset_balance.lookup(&bv("ETH")), Some(300_000_000));
    assert_eq!(pv.asset_balance.lookup(&bv("STABLECOIN")), Some(0));
}

#[test]
fn missing_spot_key_fails_after_margin() {
    // the margin subsystem runs and passes; the missing spot key then aborts
    let margin_t = Transcript {
        urls: vec![risk_url("100"), balance_url("100")],
        bodies: vec![risk_body(), margin_balance_body()],
    };
    let att = bv(&format!(
        r#"{{"unified":{u}}}"#,
        u = String::from_utf8(meta_payload()).unwrap()
    ));
    let pv = run(
        &att,
        b"{}",
        &Ok(margin_t),
        &Err(bv("never reached")),
    );
    assert_eq!(pv.status, 7);
    assert_eq!(pv.attestation_meta.len(), 1);
}

#[test]
fn duplicate_account_poisons_run() {
    let spot_t = Transcript {
        urls: vec![spot_url("1"), spot_url("2")],
        bodies: vec![spot_body("12345"), spot_body("12345")],
    };
    let margin_t = Transcript {
        urls: vec![],
        bodies: vec![],
    };
    let att = bv(&format!(
        r#"{{"unified":{u},"spot":{s}}}"#,
        u = String::from_utf8(meta_payload()).unwrap(),
        s = String::from_utf8(meta_payload()).unwrap()
    ));
    let pv = run(&att, b"{}", &Ok(margin_t), &Ok(spot_t));
    assert_eq!(pv.status, 16);
}
