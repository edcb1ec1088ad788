//! Stage-tagged protocol data: which stage a message belongs to, which early
//! messages are delayed until their stage starts, and the size checks that
//! each message must pass before it is processed.
use vstd::prelude::*;
use crate::broadcast::StageMessage;
use crate::messages::{Blob, BroadcastVerificationMessage, Comm1, LocalSig3, Payload};
use crate::primitives::{AuthorityCount, ChainTag};

verus! {

/// Stages of the signing protocol, in order.
#[derive(PartialEq, Eq, Structural, Debug, Clone, Copy)]
pub enum SigningStageName {
    AwaitCommitments1,
    VerifyCommitmentsBroadcast2,
    LocalSigStage3,
    VerifyLocalSigsBroadcastStage4,
}

/// Stages of the key generation protocol, in order.
#[derive(PartialEq, Eq, Structural, Debug, Clone, Copy)]
pub enum KeygenStageName {
    HashCommit1,
    VerifyHashCommit2,
    Coefficient3,
    Complaints4,
    VerifyComplaints5,
    SecretShares6,
    Blame7,
    VerifyBlame8,
}

/// A stage of either protocol.
#[derive(PartialEq, Eq, Structural, Debug, Clone, Copy)]
pub enum StageName {
    Keygen(KeygenStageName),
    Signing(SigningStageName),
}

/// The stage that follows `s` in the signing protocol.
pub open spec fn signing_next(s: SigningStageName) -> Option<SigningStageName> {
    match s {
        SigningStageName::AwaitCommitments1 => Some(SigningStageName::VerifyCommitmentsBroadcast2),
        SigningStageName::VerifyCommitmentsBroadcast2 => Some(SigningStageName::LocalSigStage3),
        SigningStageName::LocalSigStage3 => Some(SigningStageName::VerifyLocalSigsBroadcastStage4),
        SigningStageName::VerifyLocalSigsBroadcastStage4 => None,
    }
}

/// The stage that follows `s` in the key generation protocol.
pub open spec fn keygen_next(s: KeygenStageName) -> Option<KeygenStageName> {
    match s {
        KeygenStageName::HashCommit1 => Some(KeygenStageName::VerifyHashCommit2),
        KeygenStageName::VerifyHashCommit2 => Some(KeygenStageName::Coefficient3),
        KeygenStageName::Coefficient3 => Some(KeygenStageName::Complaints4),
        KeygenStageName::Complaints4 => Some(KeygenStageName::VerifyComplaints5),
        KeygenStageName::VerifyComplaints5 => Some(KeygenStageName::SecretShares6),
        KeygenStageName::SecretShares6 => Some(KeygenStageName::Blame7),
        KeygenStageName::Blame7 => Some(KeygenStageName::VerifyBlame8),
        KeygenStageName::VerifyBlame8 => None,
    }
}

/// Position of a signing stage in the protocol.
pub open spec fn signing_rank(s: SigningStageName) -> u8 {
    match s {
        SigningStageName::AwaitCommitments1 => 0,
        SigningStageName::VerifyCommitmentsBroadcast2 => 1,
        SigningStageName::LocalSigStage3 => 2,
        SigningStageName::VerifyLocalSigsBroadcastStage4 => 3,
    }
}

pub fn signing_stage_rank(s: SigningStageName) -> (r: u8)
    ensures
        r == signing_rank(s),
{
    match s {
        SigningStageName::AwaitCommitments1 => 0,
        SigningStageName::VerifyCommitmentsBroadcast2 => 1,
        SigningStageName::LocalSigStage3 => 2,
        SigningStageName::VerifyLocalSigsBroadcastStage4 => 3,
    }
}

/// Position of a key generation stage in the protocol.
pub open spec fn keygen_rank(s: KeygenStageName) -> u8 {
    match s {
        KeygenStageName::HashCommit1 => 0,
        KeygenStageName::VerifyHashCommit2 => 1,
        KeygenStageName::Coefficient3 => 2,
        KeygenStageName::Complaints4 => 3,
        KeygenStageName::VerifyComplaints5 => 4,
        KeygenStageName::SecretShares6 => 5,
        KeygenStageName::Blame7 => 6,
        KeygenStageName::VerifyBlame8 => 7,
    }
}

/// Data exchanged between parties during the stages of the signing protocol.
#[derive(Debug)]
pub enum SigningData {
    CommStage1(Comm1),
    BroadcastVerificationStage2(BroadcastVerificationMessage<Comm1>),
    LocalSigStage3(LocalSig3),
    VerifyLocalSigsStage4(BroadcastVerificationMessage<LocalSig3>),
}

impl SigningData {
    /// The stage a message is typed for.
    pub open spec fn spec_stage(&self) -> SigningStageName {
        match self {
            SigningData::CommStage1(_) => SigningStageName::AwaitCommitments1,
            SigningData::BroadcastVerificationStage2(_) =>
                SigningStageName::VerifyCommitmentsBroadcast2,
            SigningData::LocalSigStage3(_) => SigningStageName::LocalSigStage3,
            SigningData::VerifyLocalSigsStage4(_) =>
                SigningStageName::VerifyLocalSigsBroadcastStage4,
        }
    }

    pub fn stage(&self) -> (r: SigningStageName)
        ensures
            r == self.spec_stage(),
    {
        match self {
            SigningData::CommStage1(_) => SigningStageName::AwaitCommitments1,
            SigningData::BroadcastVerificationStage2(_) =>
                SigningStageName::VerifyCommitmentsBroadcast2,
            SigningData::LocalSigStage3(_) => SigningStageName::LocalSigStage3,
            SigningData::VerifyLocalSigsStage4(_) =>
                SigningStageName::VerifyLocalSigsBroadcastStage4,
        }
    }

    /// Size check before processing: a verification message carries one
    /// entry per party, and the commitments pass the initial stage's check.
    pub open spec fn spec_data_size_is_valid(
        &self,
        num_of_parties: AuthorityCount,
        chain: ChainTag,
    ) -> bool {
        match self {
            SigningData::CommStage1(m) => spec_initial_size_ok(m.0@.len(), chain),
            SigningData::BroadcastVerificationStage2(m) => m.data@.len() == num_of_parties,
            SigningData::LocalSigStage3(_) => true,
            SigningData::VerifyLocalSigsStage4(m) => m.data@.len() == num_of_parties,
        }
    }

    pub fn data_size_is_valid(&self, num_of_parties: AuthorityCount, chain: ChainTag) -> (r: bool)
        ensures
            r == self.spec_data_size_is_valid(num_of_parties, chain),
    {
        match self {
            SigningData::CommStage1(_) => self.initial_stage_data_size_is_valid(chain),
            SigningData::BroadcastVerificationStage2(m) => m.data.len() == num_of_parties as usize,
            SigningData::LocalSigStage3(_) => true,
            SigningData::VerifyLocalSigsStage4(m) => m.data.len() == num_of_parties as usize,
        }
    }

    /// Size check of the initial stage's commitments: exactly one payload on
    /// the single-payload chains, any number on Bitcoin.
    pub fn initial_stage_data_size_is_valid(&self, chain: ChainTag) -> (r: bool)
        requires
            self is CommStage1,
        ensures
            r == spec_initial_size_ok(self->CommStage1_0.0@.len(), chain),
    {
        match self {
            SigningData::CommStage1(m) => match chain {
                ChainTag::Ethereum | ChainTag::Polkadot | ChainTag::Ed25519 => m.0.len() == 1,
                ChainTag::Bitcoin => true,
            },
            _ => false,
        }
    }

    /// Whether a message that arrives before its ceremony is started locally
    /// is kept: only those of the initial stage.
    pub fn should_delay_unauthorised(&self) -> (r: bool)
        ensures
            r == (self.spec_stage() == SigningStageName::AwaitCommitments1),
    {
        matches!(self, SigningData::CommStage1(_))
    }

    /// Whether `message`, received while in `stage_name`, is kept for the
    /// next stage: exactly when it is typed for the stage after this one.
    pub fn should_delay(stage_name: SigningStageName, message: &SigningData) -> (r: bool)
        ensures
            r == (signing_next(stage_name) == Some(message.spec_stage())),
    {
        match stage_name {
            SigningStageName::AwaitCommitments1 => {
                matches!(message, SigningData::BroadcastVerificationStage2(_))
            },
            SigningStageName::VerifyCommitmentsBroadcast2 => {
                matches!(message, SigningData::LocalSigStage3(_))
            },
            SigningStageName::LocalSigStage3 => {
                matches!(message, SigningData::VerifyLocalSigsStage4(_))
            },
            SigningStageName::VerifyLocalSigsBroadcastStage4 => false,
        }
    }
}

/// The initial signing stage's size rule.
pub open spec fn spec_initial_size_ok(num_commitments: nat, chain: ChainTag) -> bool {
    match chain {
        ChainTag::Bitcoin => true,
        _ => num_commitments == 1,
    }
}

pub fn keygen_stage_rank(s: KeygenStageName) -> (r: u8)
    ensures
        r == keygen_rank(s),
{
    match s {
        KeygenStageName::HashCommit1 => 0,
        KeygenStageName::VerifyHashCommit2 => 1,
        KeygenStageName::Coefficient3 => 2,
        KeygenStageName::Complaints4 => 3,
        KeygenStageName::VerifyComplaints5 => 4,
        KeygenStageName::SecretShares6 => 5,
        KeygenStageName::Blame7 => 6,
        KeygenStageName::VerifyBlame8 => 7,
    }
}

/// Data exchanged between parties during the stages of key generation. The
/// values are the encodings that the key generation scheme produces.
#[derive(Debug)]
pub enum KeygenData {
    HashComm1(Blob),
    VerifyHashComm2(BroadcastVerificationMessage<Blob>),
    CoeffComm3(Blob),
    Complaints4(Blob),
    VerifyComplaints5(BroadcastVerificationMessage<Blob>),
    SecretShares6(Blob),
    BlameResponse7(Blob),
    VerifyBlameResponses8(BroadcastVerificationMessage<Blob>),
}

impl KeygenData {
    pub open spec fn spec_stage(&self) -> KeygenStageName {
        match self {
            KeygenData::HashComm1(_) => KeygenStageName::HashCommit1,
            KeygenData::VerifyHashComm2(_) => KeygenStageName::VerifyHashCommit2,
            KeygenData::CoeffComm3(_) => KeygenStageName::Coefficient3,
            KeygenData::Complaints4(_) => KeygenStageName::Complaints4,
            KeygenData::VerifyComplaints5(_) => KeygenStageName::VerifyComplaints5,
            KeygenData::SecretShares6(_) => KeygenStageName::SecretShares6,
            KeygenData::BlameResponse7(_) => KeygenStageName::Blame7,
            KeygenData::VerifyBlameResponses8(_) => KeygenStageName::VerifyBlame8,
        }
    }

    pub fn stage(&self) -> (r: KeygenStageName)
        ensures
            r == self.spec_stage(),
    {
        match self {
            KeygenData::HashComm1(_) => KeygenStageName::HashCommit1,
            KeygenData::VerifyHashComm2(_) => KeygenStageName::VerifyHashCommit2,
            KeygenData::CoeffComm3(_) => KeygenStageName::Coefficient3,
            KeygenData::Complaints4(_) => KeygenStageName::Complaints4,
            KeygenData::VerifyComplaints5(_) => KeygenStageName::VerifyComplaints5,
            KeygenData::SecretShares6(_) => KeygenStageName::SecretShares6,
            KeygenData::BlameResponse7(_) => KeygenStageName::Blame7,
            KeygenData::VerifyBlameResponses8(_) => KeygenStageName::VerifyBlame8,
        }
    }

    /// A verification message carries one entry per party; other messages
    /// pass.
    pub open spec fn spec_data_size_is_valid(&self, num_of_parties: AuthorityCount) -> bool {
        match self {
            KeygenData::VerifyHashComm2(m) => m.data@.len() == num_of_parties,
            KeygenData::VerifyComplaints5(m) => m.data@.len() == num_of_parties,
            KeygenData::VerifyBlameResponses8(m) => m.data@.len() == num_of_parties,
            _ => true,
        }
    }

    pub fn data_size_is_valid(&self, num_of_parties: AuthorityCount) -> (r: bool)
        ensures
            r == self.spec_data_size_is_valid(num_of_parties),
    {
        match self {
            KeygenData::VerifyHashComm2(m) => m.data.len() == num_of_parties as usize,
            KeygenData::VerifyComplaints5(m) => m.data.len() == num_of_parties as usize,
            KeygenData::VerifyBlameResponses8(m) => m.data.len() == num_of_parties as usize,
            _ => true,
        }
    }

    /// Only messages of the initial stage are kept before a local start.
    pub fn should_delay_unauthorised(&self) -> (r: bool)
        ensures
            r == (self.spec_stage() == KeygenStageName::HashCommit1),
    {
        matches!(self, KeygenData::HashComm1(_))
    }

    /// Whether `message`, received while in `stage_name`, is kept for the
    /// next stage: exactly when it is typed for the stage after this one.
    pub fn should_delay(stage_name: KeygenStageName, message: &KeygenData) -> (r: bool)
        ensures
            r == (keygen_next(stage_name) == Some(message.spec_stage())),
    {
        let s = message.stage();
        match stage_name {
            KeygenStageName::HashCommit1 => s == KeygenStageName::VerifyHashCommit2,
            KeygenStageName::VerifyHashCommit2 => s == KeygenStageName::Coefficient3,
            KeygenStageName::Coefficient3 => s == KeygenStageName::Complaints4,
            KeygenStageName::Complaints4 => s == KeygenStageName::VerifyComplaints5,
            KeygenStageName::VerifyComplaints5 => s == KeygenStageName::SecretShares6,
            KeygenStageName::SecretShares6 => s == KeygenStageName::Blame7,
            KeygenStageName::Blame7 => s == KeygenStageName::VerifyBlame8,
            KeygenStageName::VerifyBlame8 => false,
        }
    }
}

impl StageMessage for SigningData {
    open spec fn spec_rank(&self) -> u8 {
        signing_rank(self.spec_stage())
    }

    fn rank(&self) -> (r: u8) {
        match self {
            SigningData::CommStage1(_) => 0,
            SigningData::BroadcastVerificationStage2(_) => 1,
            SigningData::LocalSigStage3(_) => 2,
            SigningData::VerifyLocalSigsStage4(_) => 3,
        }
    }
}

impl StageMessage for KeygenData {
    open spec fn spec_rank(&self) -> u8 {
        keygen_rank(self.spec_stage())
    }

    fn rank(&self) -> (r: u8) {
        match self {
            KeygenData::HashComm1(_) => 0,
            KeygenData::VerifyHashComm2(_) => 1,
            KeygenData::CoeffComm3(_) => 2,
            KeygenData::Complaints4(_) => 3,
            KeygenData::VerifyComplaints5(_) => 4,
            KeygenData::SecretShares6(_) => 5,
            KeygenData::BlameResponse7(_) => 6,
            KeygenData::VerifyBlameResponses8(_) => 7,
        }
    }
}

/// Mathematical value of a signing message.
pub enum SigningDataView {
    CommStage1(Seq<(Seq<u8>, Seq<u8>)>),
    BroadcastVerificationStage2(Seq<Option<Seq<(Seq<u8>, Seq<u8>)>>>),
    LocalSigStage3(Seq<Seq<u8>>),
    VerifyLocalSigsStage4(Seq<Option<Seq<Seq<u8>>>>),
}

impl View for SigningData {
    type V = SigningDataView;

    open spec fn view(&self) -> SigningDataView {
        match self {
            SigningData::CommStage1(m) => SigningDataView::CommStage1(m@),
            SigningData::BroadcastVerificationStage2(m) =>
                SigningDataView::BroadcastVerificationStage2(m@),
            SigningData::LocalSigStage3(m) => SigningDataView::LocalSigStage3(m@),
            SigningData::VerifyLocalSigsStage4(m) => SigningDataView::VerifyLocalSigsStage4(m@),
        }
    }
}

impl Payload for SigningData {
    fn same_as(&self, other: &Self) -> (r: bool) {
        match (self, other) {
            (SigningData::CommStage1(a), SigningData::CommStage1(b)) => a.same_as(b),
            (
                SigningData::BroadcastVerificationStage2(a),
                SigningData::BroadcastVerificationStage2(b),
            ) => a.same_as(b),
            (SigningData::LocalSigStage3(a), SigningData::LocalSigStage3(b)) => a.same_as(b),
            (SigningData::VerifyLocalSigsStage4(a), SigningData::VerifyLocalSigsStage4(b)) => a.same_as(
                b,
            ),
            _ => false,
        }
    }

    fn duplicate(&self) -> (r: Self) {
        match self {
            SigningData::CommStage1(a) => SigningData::CommStage1(a.duplicate()),
            SigningData::BroadcastVerificationStage2(a) => SigningData::BroadcastVerificationStage2(
                a.duplicate(),
            ),
            SigningData::LocalSigStage3(a) => SigningData::LocalSigStage3(a.duplicate()),
            SigningData::VerifyLocalSigsStage4(a) => SigningData::VerifyLocalSigsStage4(
                a.duplicate(),
            ),
        }
    }
}

/// Mathematical value of a key generation message.
pub enum KeygenDataView {
    HashComm1(Seq<u8>),
    VerifyHashComm2(Seq<Option<Seq<u8>>>),
    CoeffComm3(Seq<u8>),
    Complaints4(Seq<u8>),
    VerifyComplaints5(Seq<Option<Seq<u8>>>),
    SecretShares6(Seq<u8>),
    BlameResponse7(Seq<u8>),
    VerifyBlameResponses8(Seq<Option<Seq<u8>>>),
}

impl View for KeygenData {
    type V = KeygenDataView;

    open spec fn view(&self) -> KeygenDataView {
        match self {
            KeygenData::HashComm1(m) => KeygenDataView::HashComm1(m@),
            KeygenData::VerifyHashComm2(m) => KeygenDataView::VerifyHashComm2(m@),
            KeygenData::CoeffComm3(m) => KeygenDataView::CoeffComm3(m@),
            KeygenData::Complaints4(m) => KeygenDataView::Complaints4(m@),
            KeygenData::VerifyComplaints5(m) => KeygenDataView::VerifyComplaints5(m@),
            KeygenData::SecretShares6(m) => KeygenDataView::SecretShares6(m@),
            KeygenData::BlameResponse7(m) => KeygenDataView::BlameResponse7(m@),
            KeygenData::VerifyBlameResponses8(m) => KeygenDataView::VerifyBlameResponses8(m@),
        }
    }
}

impl Payload for KeygenData {
    fn same_as(&self, other: &Self) -> (r: bool) {
        match (self, other) {
            (KeygenData::HashComm1(a), KeygenData::HashComm1(b)) => a.same_as(b),
            (KeygenData::VerifyHashComm2(a), KeygenData::VerifyHashComm2(b)) => a.same_as(b),
            (KeygenData::CoeffComm3(a), KeygenData::CoeffComm3(b)) => a.same_as(b),
            (KeygenData::Complaints4(a), KeygenData::Complaints4(b)) => a.same_as(b),
            (KeygenData::VerifyComplaints5(a), KeygenData::VerifyComplaints5(b)) => a.same_as(b),
            (KeygenData::SecretShares6(a), KeygenData::SecretShares6(b)) => a.same_as(b),
            (KeygenData::BlameResponse7(a), KeygenData::BlameResponse7(b)) => a.same_as(b),
            (KeygenData::VerifyBlameResponses8(a), KeygenData::VerifyBlameResponses8(b)) => a.same_as(b),
            _ => false,
        }
    }

    fn duplicate(&self) -> (r: Self) {
        match self {
            KeygenData::HashComm1(a) => KeygenData::HashComm1(a.duplicate()),
            KeygenData::VerifyHashComm2(a) => KeygenData::VerifyHashComm2(a.duplicate()),
            KeygenData::CoeffComm3(a) => KeygenData::CoeffComm3(a.duplicate()),
            KeygenData::Complaints4(a) => KeygenData::Complaints4(a.duplicate()),
            KeygenData::VerifyComplaints5(a) => KeygenData::VerifyComplaints5(a.duplicate()),
            KeygenData::SecretShares6(a) => KeygenData::SecretShares6(a.duplicate()),
            KeygenData::BlameResponse7(a) => KeygenData::BlameResponse7(a.duplicate()),
            KeygenData::VerifyBlameResponses8(a) => KeygenData::VerifyBlameResponses8(a.duplicate()),
        }
    }
}

/// Mathematical value of the data of either protocol.
pub enum MultisigDataView {
    Keygen(KeygenDataView),
    Signing(SigningDataView),
}

impl View for MultisigData {
    type V = MultisigDataView;

    open spec fn view(&self) -> MultisigDataView {
        match self {
            MultisigData::Keygen(d) => MultisigDataView::Keygen(d@),
            MultisigData::Signing(d) => MultisigDataView::Signing(d@),
        }
    }
}

/// Data of either protocol, as carried between peers.
#[derive(Debug)]
pub enum MultisigData {
    Keygen(KeygenData),
    Signing(SigningData),
}

impl MultisigData {
    pub open spec fn spec_stage(&self) -> StageName {
        match self {
            MultisigData::Keygen(d) => StageName::Keygen(d.spec_stage()),
            MultisigData::Signing(d) => StageName::Signing(d.spec_stage()),
        }
    }

    pub fn stage(&self) -> (r: StageName)
        ensures
            r == self.spec_stage(),
    {
        match self {
            MultisigData::Keygen(d) => StageName::Keygen(d.stage()),
            MultisigData::Signing(d) => StageName::Signing(d.stage()),
        }
    }

    /// Whether the message may open a buffer for a ceremony that has not been
    /// started locally: it belongs to the initial stage of its protocol.
    pub fn should_delay_unauthorised(&self) -> (r: bool)
        ensures
            r == is_initial_stage(self.spec_stage()),
    {
        match self {
            MultisigData::Keygen(d) => d.should_delay_unauthorised(),
            MultisigData::Signing(d) => d.should_delay_unauthorised(),
        }
    }
}

/// The first stage of a protocol.
pub open spec fn is_initial_stage(s: StageName) -> bool {
    s == StageName::Keygen(KeygenStageName::HashCommit1) || s == StageName::Signing(
        SigningStageName::AwaitCommitments1,
    )
}

impl From<SigningData> for MultisigData {
    fn from(data: SigningData) -> (r: MultisigData)
        ensures
            r == MultisigData::Signing(data),
    {
        MultisigData::Signing(data)
    }
}

impl vstd::std_specs::convert::FromSpecImpl<SigningData> for MultisigData {
    open spec fn obeys_from_spec() -> bool {
        true
    }

    open spec fn from_spec(v: SigningData) -> MultisigData {
        MultisigData::Signing(v)
    }
}

impl From<KeygenData> for MultisigData {
    fn from(data: KeygenData) -> (r: MultisigData)
        ensures
            r == MultisigData::Keygen(data),
    {
        MultisigData::Keygen(data)
    }
}

impl vstd::std_specs::convert::FromSpecImpl<KeygenData> for MultisigData {
    open spec fn obeys_from_spec() -> bool {
        true
    }

    open spec fn from_spec(v: KeygenData) -> MultisigData {
        MultisigData::Keygen(v)
    }
}

} // verus!
