//! Reading a request URL: the `timestamp=` query parameter, exactly as the
//! transcript rules demand it, and the running minimum over a subsystem.
use crate::errors::ZkErrorCode;
use crate::text::{
    all_digits, ascii_bytes, dec_val, find_byte, find_pattern, first_byte_from, first_match_from,
    lemma_first_byte_from_props, lemma_first_match_from_props, parse_u128, str_to_bytes,
};
use vstd::prelude::*;

verus! {

pub open spec fn ts_key() -> Seq<u8> {
    ascii_bytes("timestamp="@)
}

/// The region of the URL holding the timestamp text: it starts right after
/// the first `timestamp=` and ends at the next `&`, at the next `timestamp=`,
/// or at the end of the URL, whichever comes first.
pub open spec fn ts_bounds(url: Seq<u8>) -> Option<(int, int)> {
    match first_match_from(url, ts_key(), 0) {
        None => None,
        Some(m) => {
            let start = m + ts_key().len();
            let e1 = match first_byte_from(url, 38, start) {
                Some(x) => x,
                None => url.len() as int,
            };
            let e2 = match first_match_from(url, ts_key(), start) {
                Some(x) => x,
                None => url.len() as int,
            };
            Some((start, if e1 <= e2 { e1 } else { e2 }))
        },
    }
}

/// What reading the timestamp from a URL yields: the numeric value of the
/// parameter, or the reason it cannot be read. A missing or empty parameter
/// cannot be found; a non-numeric or overlarge one fails to parse.
pub open spec fn spec_timestamp(url: Seq<u8>) -> Result<u128, ZkErrorCode> {
    match ts_bounds(url) {
        None => Err(ZkErrorCode::CannotFoundTimestamp),
        Some((s, e)) => {
            let d = url.subrange(s, e);
            if d.len() == 0 {
                Err(ZkErrorCode::CannotFoundTimestamp)
            } else if all_digits(d) && dec_val(d) <= u128::MAX {
                Ok(dec_val(d) as u128)
            } else {
                Err(ZkErrorCode::ParseTimestampFailed)
            }
        },
    }
}

fn ts_key_bytes() -> (r: Vec<u8>)
    ensures
        r@ == ts_key(),
        r@.len() == 10,
{
    proof {
        reveal_strlit("timestamp=");
    }
    str_to_bytes("timestamp=")
}

/// Reads the `timestamp=` query parameter of a request URL.
#[verifier::loop_isolation(false)]
pub fn extract_timestamp(url: &[u8]) -> (r: Result<u128, ZkErrorCode>)
    ensures
        r == spec_timestamp(url@),
{
    let key = ts_key_bytes();
    let n = url.len();
    let m = match find_pattern(url, key.as_slice(), 0) {
        Some(m) => m,
        None => {
            return Err(ZkErrorCode::CannotFoundTimestamp);
        },
    };
    proof {
        lemma_first_match_from_props(url@, ts_key(), 0);
        assert(m + 10 <= n);
    }
    let start: usize = m + 10;
    let e1 = match find_byte(url, 38, start) {
        Some(x) => x,
        None => url.len(),
    };
    let e2 = match find_pattern(url, key.as_slice(), start) {
        Some(x) => x,
        None => url.len(),
    };
    let end: usize = if e1 <= e2 {
        e1
    } else {
        e2
    };
    proof {
        lemma_first_byte_from_props(url@, 38, start as int);
        lemma_first_match_from_props(url@, ts_key(), start as int);
        assert(ts_bounds(url@) == Some((start as int, end as int)));
    }
    if start == end {
        return Err(ZkErrorCode::CannotFoundTimestamp);
    }
    let mut digits: Vec<u8> = Vec::new();
    let mut i: usize = start;
    while i < end
        invariant
            start <= i <= end,
            digits@ =~= url@.subrange(start as int, i as int),
        decreases end - i,
    {
        digits.push(url[i]);
        i += 1;
        proof {
            assert(digits@ =~= url@.subrange(start as int, i as int));
        }
    }
    match parse_u128(digits.as_slice()) {
        Some(v) => Ok(v),
        None => Err(ZkErrorCode::ParseTimestampFailed),
    }
}

/// The minimum timestamp over a sequence of request URLs, starting from the
/// largest representable value; URLs whose timestamp cannot be read do not
/// lower it.
pub open spec fn fold_min_ts(urls: Seq<Seq<u8>>) -> u128
    decreases urls.len(),
{
    if urls.len() == 0 {
        u128::MAX
    } else {
        let rest = fold_min_ts(urls.drop_last());
        match spec_timestamp(urls.last()) {
            Ok(v) => if v < rest {
                v
            } else {
                rest
            },
            Err(_) => rest,
        }
    }
}

} // verus!
