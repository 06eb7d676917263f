//! The fixed identifiers of the protocol: the permitted endpoint URLs of the
//! two account subsystems, the field paths read from their responses, the set
//! of pooled stablecoin symbols, and the reserved pooled label.
use crate::extract::PathExpr;
use crate::text::{ascii_bytes, bytes_eq, str_to_bytes};
use vstd::prelude::*;

verus! {

pub open spec fn risk_url() -> Seq<u8> {
    ascii_bytes("https://papi.binance.com/papi/v1/um/positionRisk"@)
}

pub open spec fn balance_url() -> Seq<u8> {
    ascii_bytes("https://papi.binance.com/papi/v1/balance"@)
}

pub open spec fn spot_balance_url() -> Seq<u8> {
    ascii_bytes("https://api.binance.com/api/v3/account"@)
}

pub open spec fn stable_label() -> Seq<u8> {
    ascii_bytes("STABLECOIN"@)
}

pub fn risk_url_bytes() -> (r: Vec<u8>)
    ensures
        r@ == risk_url(),
{
    proof {
        reveal_strlit("https://papi.binance.com/papi/v1/um/positionRisk");
    }
    str_to_bytes("https://papi.binance.com/papi/v1/um/positionRisk")
}

pub fn balance_url_bytes() -> (r: Vec<u8>)
    ensures
        r@ == balance_url(),
{
    proof {
        reveal_strlit("https://papi.binance.com/papi/v1/balance");
    }
    str_to_bytes("https://papi.binance.com/papi/v1/balance")
}

pub fn spot_balance_url_bytes() -> (r: Vec<u8>)
    ensures
        r@ == spot_balance_url(),
{
    proof {
        reveal_strlit("https://api.binance.com/api/v3/account");
    }
    str_to_bytes("https://api.binance.com/api/v3/account")
}

pub fn stable_label_bytes() -> (r: Vec<u8>)
    ensures
        r@ == stable_label(),
{
    proof {
        reveal_strlit("STABLECOIN");
    }
    str_to_bytes("STABLECOIN")
}

/// The configured stablecoin symbols, pooled under the reserved label.
pub open spec fn stable_coins() -> Seq<Seq<u8>> {
    seq![
        ascii_bytes("USDT"@),
        ascii_bytes("USDC"@),
        ascii_bytes("FDUSD"@),
        ascii_bytes("TUSD"@),
        ascii_bytes("USDE"@),
        ascii_bytes("XUSD"@),
        ascii_bytes("USD1"@),
        ascii_bytes("BFUSD"@),
        ascii_bytes("USDP"@),
        ascii_bytes("DAI"@),
    ]
}

/// Whether a symbol is one of the pooled stablecoins.
pub open spec fn is_stable(k: Seq<u8>) -> bool {
    stable_coins().contains(k)
}

pub fn stable_coin_bytes() -> (r: Vec<Vec<u8>>)
    ensures
        crate::text::views(r@) == stable_coins(),
{
    proof {
        reveal_strlit("USDT");
        reveal_strlit("USDC");
        reveal_strlit("FDUSD");
        reveal_strlit("TUSD");
        reveal_strlit("USDE");
        reveal_strlit("XUSD");
        reveal_strlit("USD1");
        reveal_strlit("BFUSD");
        reveal_strlit("USDP");
        reveal_strlit("DAI");
    }
    let mut r: Vec<Vec<u8>> = Vec::new();
    r.push(str_to_bytes("USDT"));
    r.push(str_to_bytes("USDC"));
    r.push(str_to_bytes("FDUSD"));
    r.push(str_to_bytes("TUSD"));
    r.push(str_to_bytes("USDE"));
    r.push(str_to_bytes("XUSD"));
    r.push(str_to_bytes("USD1"));
    r.push(str_to_bytes("BFUSD"));
    r.push(str_to_bytes("USDP"));
    r.push(str_to_bytes("DAI"));
    proof {
        assert(crate::text::views(r@) =~= stable_coins());
    }
    r
}

/// Decides membership in the stablecoin set.
pub fn is_stable_symbol(k: &Vec<u8>) -> (r: bool)
    ensures
        r == is_stable(k@),
{
    let coins = stable_coin_bytes();
    let mut i: usize = 0;
    while i < coins.len()
        invariant
            i <= coins@.len(),
            crate::text::views(coins@) == stable_coins(),
            forall|j: int| 0 <= j < i ==> stable_coins()[j] != k@,
        decreases coins@.len() - i,
    {
        if bytes_eq(&coins[i], k) {
            assert(stable_coins()[i as int] == k@);
            return true;
        }
        i += 1;
    }
    assert(!stable_coins().contains(k@));
    false
}

/// The field paths read from a position-risk response.
pub fn risk_paths() -> (r: Vec<PathExpr>)
    ensures
        r@.len() == 2,
        r@[0] matches PathExpr::EachField(a) && a@ == "symbol"@,
        r@[1] matches PathExpr::EachField(b) && b@ == "entryPrice"@,
{
    let mut v: Vec<PathExpr> = Vec::new();
    v.push(PathExpr::EachField("symbol".to_owned()));
    v.push(PathExpr::EachField("entryPrice".to_owned()));
    v
}

/// The field paths read from a derivatives balance response.
pub fn margin_balance_paths() -> (r: Vec<PathExpr>)
    ensures
        r@.len() == 3,
        r@[0] matches PathExpr::EachField(a) && a@ == "asset"@,
        r@[1] matches PathExpr::EachField(b) && b@ == "totalWalletBalance"@,
        r@[2] matches PathExpr::EachField(c) && c@ == "umUnrealizedPNL"@,
{
    let mut v: Vec<PathExpr> = Vec::new();
    v.push(PathExpr::EachField("asset".to_owned()));
    v.push(PathExpr::EachField("totalWalletBalance".to_owned()));
    v.push(PathExpr::EachField("umUnrealizedPNL".to_owned()));
    v
}

/// The field path of the spot account identity.
pub fn uid_paths() -> (r: Vec<PathExpr>)
    ensures
        r@.len() == 1,
        r@[0] matches PathExpr::Field(a) && a@ == "uid"@,
{
    let mut v: Vec<PathExpr> = Vec::new();
    v.push(PathExpr::Field("uid".to_owned()));
    v
}

/// The field paths read from a spot balance response.
pub fn spot_balance_paths() -> (r: Vec<PathExpr>)
    ensures
        r@.len() == 3,
        r@[0] matches PathExpr::KeyEachField(k0, a) && k0@ == "balances"@ && a@ == "asset"@,
        r@[1] matches PathExpr::KeyEachField(k1, b) && k1@ == "balances"@ && b@ == "free"@,
        r@[2] matches PathExpr::KeyEachField(k2, c) && k2@ == "balances"@ && c@ == "locked"@,
{
    let mut v: Vec<PathExpr> = Vec::new();
    v.push(PathExpr::KeyEachField("balances".to_owned(), "asset".to_owned()));
    v.push(PathExpr::KeyEachField("balances".to_owned(), "free".to_owned()));
    v.push(PathExpr::KeyEachField("balances".to_owned(), "locked".to_owned()));
    v
}

} // verus!
