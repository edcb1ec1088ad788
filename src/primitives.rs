//! Identifiers and result types shared by every part of the engine.
use vstd::prelude::*;

verus! {

/// Identifier of a ceremony, allocated in increasing order by the requester.
pub type CeremonyId = u64;

/// One-based index of a party inside a ceremony.
pub type AuthorityCount = u32;

/// Identifier of a validator account; accounts are ordered by this number.
pub type AccountId = u64;

/// Identifier of a stored key.
#[derive(PartialEq, Eq, Structural, Debug, Clone, Copy, Hash)]
pub struct KeyId(pub u64);

/// Why a ceremony request failed, reported together with the blamed accounts.
#[derive(PartialEq, Eq, Structural, Debug, Clone, Copy)]
pub enum FailureReason {
    /// The participant set was empty, unordered or held duplicates.
    InvalidParticipants,
    /// Signing was requested with a key that is not stored.
    UnknownKey,
    /// Consensus on what some party broadcast could not be reached.
    BroadcastFailure,
    /// A party's contribution failed the local checks.
    InvalidContribution,
    /// The aggregate signature did not verify.
    InvalidSignature,
    /// A stage deadline passed with messages still missing.
    Timeout,
    /// The local node is not among the participants.
    NotParticipating,
    /// The ceremony id is not above the highest id seen so far.
    DuplicateCeremonyId,
}

/// Coarse reason for aborting a ceremony.
#[derive(PartialEq, Eq, Structural, Debug, Clone, Copy)]
pub enum CeremonyAbortReason {
    Unauthorised,
    Timeout,
    Invalid,
}

/// Which chain a signing scheme signs for; decides how many payloads a
/// single signing ceremony may carry.
#[derive(PartialEq, Eq, Structural, Debug, Clone, Copy)]
pub enum ChainTag {
    Ethereum,
    Polkadot,
    Bitcoin,
    Ed25519,
}

/// A request to generate a key among `signers`.
#[derive(Debug, Clone)]
pub struct KeygenInfo {
    pub id: KeyId,
    pub signers: Vec<AccountId>,
}

impl KeygenInfo {
    pub fn new(id: KeyId, signers: Vec<AccountId>) -> (r: Self)
        ensures
            r.id == id,
            r.signers@ == signers@,
    {
        KeygenInfo { id, signers }
    }
}

/// A request to sign with key `id` among `signers`; not every holder of the
/// key takes part in a given signing ceremony.
#[derive(Debug, Clone)]
pub struct SigningInfo {
    pub id: KeyId,
    pub signers: Vec<AccountId>,
}

impl SigningInfo {
    pub fn new(id: KeyId, signers: Vec<AccountId>) -> (r: Self)
        ensures
            r.id == id,
            r.signers@ == signers@,
    {
        SigningInfo { id, signers }
    }
}

/// An instruction issued locally to the engine.
#[derive(Debug, Clone)]
pub enum MultisigInstruction {
    KeyGen(KeygenInfo),
    /// Sign the message hash (first field) as `SigningInfo` describes.
    Sign(Vec<u8>, SigningInfo),
}

} // verus!
