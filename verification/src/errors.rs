//! The closed set of failure reasons. Every fallible step of the pipeline
//! reports exactly one of these; the committed output carries only the code.
use vstd::prelude::*;

verus! {

#[derive(Clone, Copy, Debug, PartialEq, Eq, Structural)]
pub enum ZkErrorCode {
    ParseAttestationData,
    ParseConfigData,
    GetTaskIdFail,
    GetReportTxHashFail,
    GetAttestorAddressFail,
    GetUnifiedDataFail,
    GetSpotDataFail,
    VerifyAttestation,
    InvalidRequestLength,
    InvalidMessagesLength,
    InvalidRequestOrder,
    CannotFoundTimestamp,
    ParseTimestampFailed,
    InvalidRequestUrl,
    InvalidJsonValueSize,
    DuplicateAccount,
    GetJsonValueFail,
}

impl ZkErrorCode {
    /// The stable integer code of this failure reason; zero is reserved for success.
    pub open spec fn spec_code(self) -> u32 {
        match self {
            ZkErrorCode::ParseAttestationData => 1,
            ZkErrorCode::ParseConfigData => 2,
            ZkErrorCode::GetTaskIdFail => 3,
            ZkErrorCode::GetReportTxHashFail => 4,
            ZkErrorCode::GetAttestorAddressFail => 5,
            ZkErrorCode::GetUnifiedDataFail => 6,
            ZkErrorCode::GetSpotDataFail => 7,
            ZkErrorCode::VerifyAttestation => 8,
            ZkErrorCode::InvalidRequestLength => 9,
            ZkErrorCode::InvalidMessagesLength => 10,
            ZkErrorCode::InvalidRequestOrder => 11,
            ZkErrorCode::CannotFoundTimestamp => 12,
            ZkErrorCode::ParseTimestampFailed => 13,
            ZkErrorCode::InvalidRequestUrl => 14,
            ZkErrorCode::InvalidJsonValueSize => 15,
            ZkErrorCode::DuplicateAccount => 16,
            ZkErrorCode::GetJsonValueFail => 17,
        }
    }

    pub fn code(&self) -> (c: u32)
        ensures
            c == self.spec_code(),
            c != 0,
    {
        match self {
            ZkErrorCode::ParseAttestationData => 1,
            ZkErrorCode::ParseConfigData => 2,
            ZkErrorCode::GetTaskIdFail => 3,
            ZkErrorCode::GetReportTxHashFail => 4,
            ZkErrorCode::GetAttestorAddressFail => 5,
            ZkErrorCode::GetUnifiedDataFail => 6,
            ZkErrorCode::GetSpotDataFail => 7,
            ZkErrorCode::VerifyAttestation => 8,
            ZkErrorCode::InvalidRequestLength => 9,
            ZkErrorCode::InvalidMessagesLength => 10,
            ZkErrorCode::InvalidRequestOrder => 11,
            ZkErrorCode::CannotFoundTimestamp => 12,
            ZkErrorCode::ParseTimestampFailed => 13,
            ZkErrorCode::InvalidRequestUrl => 14,
            ZkErrorCode::InvalidJsonValueSize => 15,
            ZkErrorCode::DuplicateAccount => 16,
            ZkErrorCode::GetJsonValueFail => 17,
        }
    }

    /// The default human-readable message for this failure reason.
    pub fn message(&self) -> (m: &'static str) {
        match self {
            ZkErrorCode::ParseAttestationData => "cannot parse attestation data",
            ZkErrorCode::ParseConfigData => "cannot parse attestation config",
            ZkErrorCode::GetTaskIdFail => "task id not found",
            ZkErrorCode::GetReportTxHashFail => "report tx hash not found",
            ZkErrorCode::GetAttestorAddressFail => "attestor address not found",
            ZkErrorCode::GetUnifiedDataFail => "unified data not found",
            ZkErrorCode::GetSpotDataFail => "spot data not found",
            ZkErrorCode::VerifyAttestation => "attestation verification failed",
            ZkErrorCode::InvalidRequestLength => "invalid request length",
            ZkErrorCode::InvalidMessagesLength => "invalid messages length",
            ZkErrorCode::InvalidRequestOrder => "invalid request order",
            ZkErrorCode::CannotFoundTimestamp => "timestamp not found",
            ZkErrorCode::ParseTimestampFailed => "cannot parse timestamp",
            ZkErrorCode::InvalidRequestUrl => "invalid request url",
            ZkErrorCode::InvalidJsonValueSize => "invalid json value size",
            ZkErrorCode::DuplicateAccount => "duplicate account",
            ZkErrorCode::GetJsonValueFail => "cannot extract json value",
        }
    }
}

/// A terminal failure: a reason, and contextual detail from an underlying
/// cause where one exists (empty otherwise).
#[derive(Debug)]
pub struct ZkError {
    pub kind: ZkErrorCode,
    pub detail: Vec<u8>,
}

impl ZkError {
    pub fn plain(kind: ZkErrorCode) -> (r: Self)
        ensures
            r.kind == kind,
            r.detail@.len() == 0,
    {
        ZkError { kind, detail: Vec::new() }
    }

    pub fn with_detail(kind: ZkErrorCode, detail: Vec<u8>) -> (r: Self)
        ensures
            r.kind == kind,
            r.detail == detail,
    {
        ZkError { kind, detail }
    }

    pub fn code(&self) -> (c: u32)
        ensures
            c == self.kind.spec_code(),
            c != 0,
    {
        self.kind.code()
    }
}

} // verus!
