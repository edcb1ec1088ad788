use multisig::messages::{BroadcastVerificationMessage, Comm1, LocalSig3, SigningCommitment};
use multisig::primitives::ChainTag;
use multisig::stages::{
    KeygenData, KeygenStageName, MultisigData, SigningData, SigningStageName, StageName,
};

fn dummy_commitment(seed: u8) -> SigningCommitment {
    SigningCommitment { d: vec![seed; 33], e: vec![seed.wrapping_add(1); 33] }
}

fn dummy_comm1(number_of_commitments: u64) -> Comm1 {
    Comm1((0..number_of_commitments).map(|i| dummy_commitment(i as u8)).collect())
}

fn dummy_local_sig() -> LocalSig3 {
    LocalSig3 { responses: vec![vec![7u8; 32]] }
}

fn gen_signing_data_stage1(number_of_commitments: u64) -> SigningData {
    SigningData::CommStage1(dummy_comm1(number_of_commitments))
}

fn gen_signing_data_stage2(participant_count: u32) -> SigningData {
    SigningData::BroadcastVerificationStage2(BroadcastVerificationMessage {
        data: (1..=participant_count).map(|_| Some(dummy_comm1(1))).collect(),
    })
}

fn gen_signing_data_stage4(participant_count: u32) -> SigningData {
    SigningData::VerifyLocalSigsStage4(BroadcastVerificationMessage {
        data: (1..=participant_count).map(|_| Some(dummy_local_sig())).collect(),
    })
}

#[test]
fn check_data_size_stage1() {
    // Exactly one commitment on Ethereum and Polkadot
    assert!(gen_signing_data_stage1(1).initial_stage_data_size_is_valid(ChainTag::Ethereum));
    assert!(!gen_signing_data_stage1(0).initial_stage_data_size_is_valid(ChainTag::Ethereum));
    assert!(!gen_signing_data_stage1(2).initial_stage_data_size_is_valid(ChainTag::Ethereum));
    assert!(!gen_signing_data_stage1(2).initial_stage_data_size_is_valid(ChainTag::Polkadot));

    // No limit on bitcoin
    assert!(gen_signing_data_stage1(2).initial_stage_data_size_is_valid(ChainTag::Bitcoin));
}

#[test]
fn check_data_size_stage2() {
    let test_size = 4;
    let data_to_check = gen_signing_data_stage2(test_size);

    assert!(data_to_check.data_size_is_valid(test_size, ChainTag::Ethereum));
    assert!(!data_to_check.data_size_is_valid(test_size - 1, ChainTag::Ethereum));
    assert!(!data_to_check.data_size_is_valid(test_size + 1, ChainTag::Ethereum));
}

#[test]
fn check_data_size_stage4() {
    let test_size = 4;
    let data_to_check = gen_signing_data_stage4(test_size);

    assert!(data_to_check.data_size_is_valid(test_size, ChainTag::Ethereum));
    assert!(!data_to_check.data_size_is_valid(test_size - 1, ChainTag::Ethereum));
    assert!(!data_to_check.data_size_is_valid(test_size + 1, ChainTag::Ethereum));
}

#[test]
fn should_delay_correct_data_for_stage() {
    let default_length = 1;

    let stage_name = [
        SigningStageName::AwaitCommitments1,
        SigningStageName::VerifyCommitmentsBroadcast2,
        SigningStageName::LocalSigStage3,
        SigningStageName::VerifyLocalSigsBroadcastStage4,
    ];
    let stage_data = [
        gen_signing_data_stage1(default_length as u64),
        gen_signing_data_stage2(default_length),
        SigningData::LocalSigStage3(dummy_local_sig()),
        gen_signing_data_stage4(default_length),
    ];

    for (stage_index, name) in stage_name.iter().enumerate() {
        for (data_index, data) in stage_data.iter().enumerate() {
            if stage_index + 1 == data_index {
                assert!(SigningData::should_delay(*name, data));
            } else {
                assert!(!SigningData::should_delay(*name, data));
            }
        }
    }
}

#[test]
fn only_initial_stage_messages_are_kept_before_start() {
    assert!(gen_signing_data_stage1(1).should_delay_unauthorised());
    assert!(!gen_signing_data_stage2(3).should_delay_unauthorised());
    assert!(!SigningData::LocalSigStage3(dummy_local_sig()).should_delay_unauthorised());
    assert!(!gen_signing_data_stage4(3).should_delay_unauthorised());
    assert!(KeygenData::HashComm1(vec![1]).should_delay_unauthorised());
    assert!(!KeygenData::CoeffComm3(vec![1]).should_delay_unauthorised());
    assert!(MultisigData::Signing(gen_signing_data_stage1(1)).should_delay_unauthorised());
    assert!(!MultisigData::Keygen(KeygenData::BlameResponse7(vec![])).should_delay_unauthorised());
}

#[test]
fn keygen_delays_only_the_next_stage() {
    let verify2 = KeygenData::VerifyHashComm2(BroadcastVerificationMessage { data: vec![None, None] });
    assert!(KeygenData::should_delay(KeygenStageName::HashCommit1, &verify2));
    assert!(!KeygenData::should_delay(KeygenStageName::VerifyHashCommit2, &verify2));
    assert!(KeygenData::should_delay(
        KeygenStageName::SecretShares6,
        &KeygenData::BlameResponse7(vec![])
    ));
    assert!(!KeygenData::should_delay(
        KeygenStageName::VerifyBlame8,
        &KeygenData::HashComm1(vec![])
    ));
    assert!(verify2.data_size_is_valid(2));
    assert!(!verify2.data_size_is_valid(3));
    assert_eq!(verify2.stage(), KeygenStageName::VerifyHashCommit2);
    assert_eq!(
        MultisigData::Keygen(verify2).stage(),
        StageName::Keygen(KeygenStageName::VerifyHashCommit2)
    );
}
