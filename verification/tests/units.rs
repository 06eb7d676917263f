use zktls_balance::amount::parse_amount;
use zktls_balance::accounts::{build_signature, find_duplicate};
use zktls_balance::errors::ZkErrorCode;
use zktls_balance::request::extract_timestamp;
use zktls_balance::rules::is_stable_symbol;
use zktls_balance::table::BalanceTable;
use zktls_balance::text::{has_prefix, to_upper, trim_quote_bytes};

fn bv(s: &str) -> Vec<u8> {
    s.as_bytes().to_vec()
}

#[test]
fn amounts_exact_values() {
    assert_eq!(parse_amount(b"1.0"), 100_000_000);
    assert_eq!(parse_amount(b"0.5"), 50_000_000);
    assert_eq!(parse_amount(b"-2.75"), -275_000_000);
    assert_eq!(parse_amount(b"1.23456789"), 123_456_789);
    assert_eq!(parse_amount(b"42"), 4_200_000_000);
    assert_eq!(parse_amount(b".5"), 50_000_000);
    assert_eq!(parse_amount(b"7."), 700_000_000);
}

#[test]
fn amounts_lenient_zero() {
    assert_eq!(parse_amount(b""), 0);
    assert_eq!(parse_amount(b"abc"), 0);
    assert_eq!(parse_amount(b"1e5"), 0);
    assert_eq!(parse_amount(b"1.2.3"), 0);
    assert_eq!(parse_amount(b"."), 0);
    assert_eq!(parse_amount(b"-"), 0);
}

#[test]
fn timestamp_reads() {
    assert_eq!(extract_timestamp(b"https://x?timestamp=100"), Ok(100));
    assert_eq!(extract_timestamp(b"https://x?timestamp=100&z=1"), Ok(100));
    assert_eq!(
        extract_timestamp(b"https://x?a=1"),
        Err(ZkErrorCode::CannotFoundTimestamp)
    );
    assert_eq!(
        extract_timestamp(b"https://x?timestamp=&a=1"),
        Err(ZkErrorCode::CannotFoundTimestamp)
    );
    assert_eq!(
        extract_timestamp(b"https://x?timestamp=12x&a=1"),
        Err(ZkErrorCode::ParseTimestampFailed)
    );
}

#[test]
fn text_helpers() {
    assert_eq!(to_upper(b"btc"), bv("BTC"));
    assert_eq!(trim_quote_bytes(b"\"BTC\""), bv("BTC"));
    assert_eq!(trim_quote_bytes(b"plain"), bv("plain"));
    assert!(has_prefix(b"https://a/b?x=1", b"https://a/b"));
    assert!(!has_prefix(b"https://a", b"https://a/b"));
}

#[test]
fn stable_membership() {
    assert!(is_stable_symbol(&bv("USDT")));
    assert!(is_stable_symbol(&bv("DAI")));
    assert!(!is_stable_symbol(&bv("BTC")));
    assert!(!is_stable_symbol(&bv("STABLECOIN")));
}

#[test]
fn signature_order_independent() {
    // the same (symbol, price) pairs in swapped record order
    let a = vec![bv("\"BTC\""), bv("\"eth\""), bv("50000"), bv("3000")];
    let b = vec![bv("\"eth\""), bv("\"BTC\""), bv("3000"), bv("50000")];
    assert_eq!(build_signature(&a), build_signature(&b));
    assert_eq!(build_signature(&a), bv("BTC:50000,ETH:3000"));
}

#[test]
fn signature_price_sensitive() {
    let a = vec![bv("\"BTC\""), bv("50000")];
    let b = vec![bv("\"BTC\""), bv("50001")];
    assert_ne!(build_signature(&a), build_signature(&b));
}

#[test]
fn duplicate_detection() {
    let with_dup = vec![bv("12345"), bv("999"), bv("12345")];
    assert!(find_duplicate(&with_dup));
    let without = vec![bv("12345"), bv("999")];
    assert!(!find_duplicate(&without));
    let empty: Vec<Vec<u8>> = Vec::new();
    assert!(!find_duplicate(&empty));
}

#[test]
fn table_credits_accumulate() {
    let mut t = BalanceTable::new();
    t.credit(bv("BTC"), 100);
    t.credit(bv("ETH"), 7);
    t.credit(bv("BTC"), 50);
    assert_eq!(t.lookup(&bv("BTC")), Some(150));
    assert_eq!(t.lookup(&bv("ETH")), Some(7));
    assert_eq!(t.lookup(&bv("XRP")), None);
    assert_eq!(t.len(), 2);
}
