use multisig::codec::{deserialize_message, serialize_for_version, CURRENT_PROTOCOL_VERSION};
use multisig::messages::{BroadcastVerificationMessage, Comm1, LocalSig3, SigningCommitment};
use multisig::stages::{KeygenData, MultisigData, SigningData};

fn comm(seed: u8) -> Comm1 {
    Comm1(vec![SigningCommitment { d: vec![seed, 1, 2], e: vec![seed, 3] }])
}

#[test]
fn envelope_layout_is_version_id_then_data() {
    let data = MultisigData::Signing(SigningData::LocalSigStage3(LocalSig3 {
        responses: vec![vec![0xaa, 0xbb]],
    }));
    let bytes = serialize_for_version(0x0102, &data, CURRENT_PROTOCOL_VERSION);
    assert_eq!(
        bytes,
        vec![
            1, // version
            0x02, 0x01, 0, 0, 0, 0, 0, 0, // ceremony id
            1, // signing
            2, // local signature stage
            1, 0, 0, 0, // one response
            2, 0, 0, 0, 0xaa, 0xbb,
        ]
    );
}

#[test]
fn envelope_round_trips() {
    let messages = vec![
        MultisigData::Signing(SigningData::CommStage1(comm(9))),
        MultisigData::Signing(SigningData::BroadcastVerificationStage2(
            BroadcastVerificationMessage { data: vec![Some(comm(1)), None, Some(comm(3))] },
        )),
        MultisigData::Signing(SigningData::VerifyLocalSigsStage4(BroadcastVerificationMessage {
            data: vec![None, Some(LocalSig3 { responses: vec![vec![], vec![5; 40]] })],
        })),
        MultisigData::Keygen(KeygenData::SecretShares6(vec![4; 70])),
        MultisigData::Keygen(KeygenData::VerifyBlameResponses8(BroadcastVerificationMessage {
            data: vec![Some(vec![1, 2]), None],
        })),
    ];
    for (i, data) in messages.into_iter().enumerate() {
        let id = 1000 + i as u64;
        let bytes = serialize_for_version(id, &data, CURRENT_PROTOCOL_VERSION);
        let again = serialize_for_version(id, &data, CURRENT_PROTOCOL_VERSION);
        assert_eq!(bytes, again);
        let decoded = deserialize_message(&bytes).expect("decodes");
        assert_eq!(decoded.ceremony_id, id);
        assert_eq!(format!("{:?}", decoded.data), format!("{:?}", data));
    }
}

#[test]
fn decoding_rejects_other_versions_and_trailing_bytes() {
    let data = MultisigData::Keygen(KeygenData::HashComm1(vec![1, 2, 3]));
    let mut bytes = serialize_for_version(7, &data, CURRENT_PROTOCOL_VERSION);
    let mut other = bytes.clone();
    other[0] = 2;
    assert!(deserialize_message(&other).is_none());
    let truncated = bytes[..bytes.len() - 1].to_vec();
    assert!(deserialize_message(&truncated).is_none());
    bytes.push(0);
    assert!(deserialize_message(&bytes).is_none());
    assert!(deserialize_message(&vec![]).is_none());
}

#[test]
fn decoding_rejects_unknown_variants() {
    let mut bytes = vec![1u8, 7, 0, 0, 0, 0, 0, 0, 0];
    bytes.push(1); // signing
    bytes.push(9); // no such stage
    assert!(deserialize_message(&bytes).is_none());
}
