//! The data carried through the pipeline: the verifier's output restricted to
//! what this system reads (request URLs and decrypted bodies), the
//! per-subsystem metadata record, and the committed public output.
use crate::table::BalanceTable;
use vstd::prelude::*;

verus! {

/// What the external attestation verifier hands back for one subsystem: the
/// ordered request URLs and the positionally paired decrypted response bodies.
pub struct Transcript {
    pub urls: Vec<Vec<u8>>,
    pub bodies: Vec<Vec<u8>>,
}

/// Per-subsystem metadata, fully populated by that subsystem's validator.
pub struct AttestationMetaStruct {
    pub task_id: Vec<u8>,
    pub report_tx_hash: Vec<u8>,
    pub attestor: Vec<u8>,
    pub timestamp: u128,
    pub base_urls: Vec<Vec<u8>>,
}

impl AttestationMetaStruct {
    pub fn empty() -> (r: Self)
        ensures
            r.task_id@.len() == 0,
            r.report_tx_hash@.len() == 0,
            r.attestor@.len() == 0,
            r.timestamp == 0,
            r.base_urls@.len() == 0,
    {
        AttestationMetaStruct {
            task_id: Vec::new(),
            report_tx_hash: Vec::new(),
            attestor: Vec::new(),
            timestamp: 0,
            base_urls: Vec::new(),
        }
    }
}

/// The committed public output: a status code (zero on success), one metadata
/// record per subsystem in fixed order, and the categorized balance table.
pub struct PublicValuesStruct {
    pub status: u32,
    pub attestation_meta: Vec<AttestationMetaStruct>,
    pub asset_balance: BalanceTable,
}

impl PublicValuesStruct {
    pub fn empty() -> (r: Self)
        ensures
            r.status == 0,
            r.attestation_meta@.len() == 0,
            r.asset_balance.entries().len() == 0,
            r.asset_balance.wf(),
    {
        PublicValuesStruct {
            status: 0,
            attestation_meta: Vec::new(),
            asset_balance: BalanceTable::new(),
        }
    }
}

} // verus!
