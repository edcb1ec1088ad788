use std::collections::HashMap;

use multisig::codec::deserialize_message;
use multisig::index_map::PartyIdxMapping;
use multisig::manager::{CeremonyManager, CeremonyState};
use multisig::messages::{BroadcastVerificationMessage, Comm1, LocalSig3, SigningCommitment};
use multisig::primitives::{AccountId, ChainTag, FailureReason, KeyId};
use multisig::keygen::KeygenScheme;
use multisig::runner::{SigningRunner, SigningScheme};
use multisig::stages::{MultisigData, SigningData, SigningStageName};

const A: AccountId = 10;
const B: AccountId = 20;
const C: AccountId = 30;
const TIMEOUT: u64 = 100;

/// A stand-in scheme: party `i` responds to payload `p` with `i` followed by
/// `p`, and a signature is the responses of all parties, concatenated.
struct ToyScheme {
    idx: u8,
    n: u8,
    honest: bool,
}

fn response(idx: u8, payload: &[u8]) -> Vec<u8> {
    let mut r = vec![idx];
    r.extend_from_slice(payload);
    r
}

impl SigningScheme for ToyScheme {
    fn commit(&mut self, num_payloads: usize) -> Vec<SigningCommitment> {
        (0..num_payloads)
            .map(|i| SigningCommitment { d: vec![self.idx, i as u8, 1], e: vec![self.idx, i as u8, 2] })
            .collect()
    }

    fn respond(&mut self, _commitments: &Vec<Comm1>, payloads: &Vec<Vec<u8>>) -> Vec<Vec<u8>> {
        payloads
            .iter()
            .map(|p| if self.honest { response(self.idx, p) } else { vec![0xee] })
            .collect()
    }

    fn verify_local_sig(
        &self,
        _commitments: &Vec<Comm1>,
        payloads: &Vec<Vec<u8>>,
        signer_idx: u32,
        sig: &LocalSig3,
    ) -> bool {
        sig.responses == payloads.iter().map(|p| response(signer_idx as u8, p)).collect::<Vec<_>>()
    }

    fn aggregate(
        &self,
        _commitments: &Vec<Comm1>,
        payloads: &Vec<Vec<u8>>,
        sigs: &Vec<LocalSig3>,
    ) -> Vec<Vec<u8>> {
        (0..payloads.len())
            .map(|i| sigs.iter().flat_map(|s| s.responses[i].clone()).collect())
            .collect()
    }

    fn verify_signature(&self, payload: &Vec<u8>, signature: &Vec<u8>) -> bool {
        let expected: Vec<u8> = (1..=self.n).flat_map(|k| response(k, payload)).collect();
        *signature == expected
    }
}

/// No key generation happens in these tests.
struct NoKeygen;

impl KeygenScheme for NoKeygen {
    fn hash_commitment(&mut self) -> Vec<u8> {
        vec![]
    }
    fn coefficient_commitments(&mut self) -> Vec<u8> {
        vec![]
    }
    fn check_coefficients(&self, _idx: u32, _hash: &Vec<u8>, _coefficients: &Vec<u8>) -> bool {
        true
    }
    fn secret_share(&mut self, _idx: u32, _coefficients: &Vec<Vec<u8>>) -> Vec<u8> {
        vec![]
    }
    fn check_share(&self, _idx: u32, _share: &Vec<u8>, _coefficients: &Vec<Vec<u8>>) -> bool {
        true
    }
    fn finalize(&mut self, _coefficients: &Vec<Vec<u8>>, _shares: &Vec<Vec<u8>>) -> Vec<u8> {
        vec![]
    }
}

type Node = CeremonyManager<ToyScheme, NoKeygen>;

fn scheme(idx: u8, n: u8) -> ToyScheme {
    ToyScheme { idx, n, honest: true }
}

fn payload() -> Vec<Vec<u8>> {
    vec![vec![0x01; 32]]
}

/// Delivers every outgoing message of every node, through the wire format,
/// until nothing is left to send; nodes in `silent` send nothing.
fn run_network(nodes: &mut Vec<(AccountId, Node)>, silent: &[AccountId], now: u64) {
    loop {
        let mut sent = false;
        for i in 0..nodes.len() {
            let from = nodes[i].0;
            let out = nodes[i].1.take_outgoing();
            if silent.contains(&from) {
                continue;
            }
            for m in out {
                for r in m.recipients {
                    let msg = deserialize_message(&m.bytes).expect("well formed");
                    let j = nodes.iter().position(|(a, _)| *a == r).unwrap();
                    nodes[j].1.process_peer_message(from, msg.ceremony_id, msg.data, now);
                    sent = true;
                }
            }
        }
        if !sent {
            break;
        }
    }
}

fn network(accounts: &[AccountId]) -> Vec<(AccountId, Node)> {
    accounts.iter().map(|a| (*a, CeremonyManager::new(*a, TIMEOUT, 50, 1000))).collect()
}

fn start_all(
    nodes: &mut Vec<(AccountId, Node)>,
    accounts: &[AccountId],
    id: u64,
    now: u64,
) {
    let n = accounts.len() as u8;
    for (k, (_, m)) in nodes.iter_mut().enumerate() {
        let r = m.start_signing(
            id,
            accounts.to_vec(),
            Some(scheme(k as u8 + 1, n)),
            payload(),
            ChainTag::Ethereum,
            now,
        );
        assert!(r.is_none());
    }
}

fn runner_of(m: &Node, id: u64) -> &SigningRunner<ToyScheme> {
    let i = m.find(id).expect("ceremony exists");
    match &m.ceremonies[i].state {
        CeremonyState::Authorised(r) => r,
        _ => panic!("not a running signing ceremony"),
    }
}

#[test]
fn happy_path_signing_three_parties() {
    let accounts = [A, B, C];
    let mut nodes = network(&accounts);
    start_all(&mut nodes, &accounts, 1, 0);
    run_network(&mut nodes, &[], 0);
    for (_, m) in nodes.iter_mut() {
        let outcomes = m.take_outcomes();
        assert_eq!(outcomes.len(), 1);
        let sigs = outcomes[0].result.as_ref().expect("signed");
        assert_eq!(sigs.len(), 1);
        assert!(scheme(1, 3).verify_signature(&payload()[0], &sigs[0]));
        assert!(m.find(1).is_none());
    }
}

#[test]
fn minimum_viable_signing_completes() {
    // Two parties: threshold 1, so n = threshold + 1.
    let accounts = [A, B];
    let mut nodes = network(&accounts);
    start_all(&mut nodes, &accounts, 5, 0);
    run_network(&mut nodes, &[], 0);
    for (_, m) in nodes.iter_mut() {
        let outcomes = m.take_outcomes();
        assert_eq!(outcomes.len(), 1);
        assert!(outcomes[0].result.is_ok());
    }
}

fn comm1_of(idx: u8) -> Comm1 {
    Comm1(scheme(idx, 3).commit(1))
}

fn own_runner(chain: ChainTag) -> SigningRunner<ToyScheme> {
    let mapping = PartyIdxMapping::from_participants(vec![A, B, C]).unwrap();
    SigningRunner::new(7, mapping, 1, payload(), chain, scheme(1, 3), 0, TIMEOUT)
}

#[test]
fn redundant_message_is_ignored() {
    let mut r = own_runner(ChainTag::Ethereum);
    r.process_message(2, SigningData::CommStage1(comm1_of(2)), 0);
    r.process_message(2, SigningData::CommStage1(Comm1(scheme(9, 3).commit(1))), 0);
    assert_eq!(r.stage_name, SigningStageName::AwaitCommitments1);
    match &r.stage.messages[1] {
        Some(SigningData::CommStage1(c)) => assert_eq!(c.0[0].d, comm1_of(2).0[0].d),
        _ => panic!("first message kept"),
    }
    r.process_message(3, SigningData::CommStage1(comm1_of(3)), 0);
    assert_eq!(r.stage_name, SigningStageName::VerifyCommitmentsBroadcast2);
    assert!(r.outcome.is_none());
}

#[test]
fn next_stage_message_is_delayed_then_drained() {
    let mut r = own_runner(ChainTag::Ethereum);
    let report = SigningData::BroadcastVerificationStage2(BroadcastVerificationMessage {
        data: vec![Some(comm1_of(1)), Some(comm1_of(2)), Some(comm1_of(3))],
    });
    r.process_message(3, report, 0);
    assert_eq!(r.delayed.len(), 1);
    assert_eq!(r.stage_name, SigningStageName::AwaitCommitments1);
    // A message two stages ahead is dropped.
    r.process_message(2, SigningData::LocalSigStage3(LocalSig3 { responses: vec![] }), 0);
    assert_eq!(r.delayed.len(), 1);
    r.process_message(2, SigningData::CommStage1(comm1_of(2)), 0);
    r.process_message(3, SigningData::CommStage1(comm1_of(3)), 0);
    assert_eq!(r.stage_name, SigningStageName::VerifyCommitmentsBroadcast2);
    assert!(r.delayed.is_empty());
    assert!(r.stage.messages[0].is_some());
    assert!(r.stage.messages[1].is_none());
    assert!(r.stage.messages[2].is_some());
}

#[test]
fn early_message_delayed_until_local_start() {
    let mut m: Node = CeremonyManager::new(A, TIMEOUT, 50, 1000);
    m.process_peer_message(C, 3, MultisigData::Signing(SigningData::CommStage1(comm1_of(3))), 0);
    let i = m.find(3).expect("buffer opened");
    assert!(matches!(m.ceremonies[i].state, CeremonyState::Unauthorised(ref b, 0) if b.len() == 1));
    let r = m.start_signing(3, vec![A, B, C], Some(scheme(1, 3)), payload(), ChainTag::Ethereum, 1);
    assert!(r.is_none());
    let runner = runner_of(&m, 3);
    assert_eq!(runner.stage_name, SigningStageName::AwaitCommitments1);
    assert!(runner.stage.messages[2].is_some());
    assert!(runner.stage.messages[1].is_none());
    // A second copy is redundant.
    m.process_peer_message(C, 3, MultisigData::Signing(SigningData::CommStage1(comm1_of(3))), 1);
    let runner = runner_of(&m, 3);
    assert!(runner.stage.messages[1].is_none());
    assert_eq!(runner.stage_name, SigningStageName::AwaitCommitments1);
}

#[test]
fn unauthorised_buffer_holds_initial_stage_only() {
    let mut m: Node = CeremonyManager::new(A, TIMEOUT, 50, 1000);
    m.process_peer_message(B, 4, MultisigData::Signing(SigningData::LocalSigStage3(LocalSig3 { responses: vec![] })), 0);
    assert!(m.find(4).is_none());
    m.process_peer_message(B, 4, MultisigData::Signing(SigningData::CommStage1(comm1_of(2))), 0);
    m.process_peer_message(
        C,
        4,
        MultisigData::Signing(SigningData::BroadcastVerificationStage2(BroadcastVerificationMessage { data: vec![] })),
        0,
    );
    let i = m.find(4).unwrap();
    assert!(matches!(m.ceremonies[i].state, CeremonyState::Unauthorised(ref b, _) if b.len() == 1));
    // The buffer expires without blame.
    m.tick(49);
    assert!(m.find(4).is_some());
    m.tick(50);
    assert!(m.find(4).is_none());
    assert!(m.take_outcomes().is_empty());
}

#[test]
fn silent_party_times_out() {
    let accounts = [A, B, C];
    let mut nodes = network(&accounts);
    start_all(&mut nodes, &accounts, 2, 0);
    run_network(&mut nodes, &[C], 0);
    let m = &mut nodes[0].1;
    m.tick(TIMEOUT - 1);
    assert!(m.take_outcomes().is_empty());
    m.tick(TIMEOUT);
    let outcomes = m.take_outcomes();
    assert_eq!(outcomes.len(), 1);
    assert_eq!(outcomes[0].result, Err((vec![C], FailureReason::Timeout)));
    assert_eq!(outcomes[0].participants, vec![A, B, C]);
}

#[test]
fn divergent_broadcaster_is_blamed() {
    let mut r = own_runner(ChainTag::Ethereum);
    let x = Comm1(scheme(2, 3).commit(1));
    let y = Comm1(vec![SigningCommitment { d: vec![0x77], e: vec![0x78] }]);
    let z = Comm1(vec![SigningCommitment { d: vec![0x99], e: vec![0x98] }]);
    r.process_message(2, SigningData::CommStage1(x), 0);
    r.process_message(3, SigningData::CommStage1(comm1_of(3)), 0);
    assert_eq!(r.stage_name, SigningStageName::VerifyCommitmentsBroadcast2);
    let b_report = BroadcastVerificationMessage { data: vec![Some(comm1_of(1)), Some(z), Some(comm1_of(3))] };
    let c_report = BroadcastVerificationMessage { data: vec![Some(comm1_of(1)), Some(y), Some(comm1_of(3))] };
    r.process_message(2, SigningData::BroadcastVerificationStage2(b_report), 0);
    r.process_message(3, SigningData::BroadcastVerificationStage2(c_report), 0);
    assert_eq!(r.outcome, Some(Err((vec![B], FailureReason::BroadcastFailure))));
}

#[test]
fn wrong_response_is_blamed_as_invalid_signature() {
    let accounts = [A, B, C];
    let mut nodes = network(&accounts);
    for (k, (_, m)) in nodes.iter_mut().enumerate() {
        let s = ToyScheme { idx: k as u8 + 1, n: 3, honest: k != 1 };
        assert!(m.start_signing(8, accounts.to_vec(), Some(s), payload(), ChainTag::Ethereum, 0).is_none());
    }
    run_network(&mut nodes, &[], 0);
    for (_, m) in nodes.iter_mut() {
        let outcomes = m.take_outcomes();
        assert_eq!(outcomes[0].result, Err((vec![B], FailureReason::InvalidSignature)));
    }
}

#[test]
fn commitments_for_the_wrong_number_of_payloads_are_invalid() {
    let mapping = PartyIdxMapping::from_participants(vec![A, B, C]).unwrap();
    let mut r = SigningRunner::new(9, mapping, 1, vec![vec![1], vec![2]], ChainTag::Bitcoin, scheme(1, 3), 0, TIMEOUT);
    let two = |i: u8| Comm1(scheme(i, 3).commit(2));
    r.process_message(2, SigningData::CommStage1(Comm1(scheme(2, 3).commit(1))), 0);
    r.process_message(3, SigningData::CommStage1(two(3)), 0);
    let report = |b: Comm1| BroadcastVerificationMessage { data: vec![Some(two(1)), Some(b), Some(two(3))] };
    r.process_message(2, SigningData::BroadcastVerificationStage2(report(Comm1(scheme(2, 3).commit(1)))), 0);
    r.process_message(3, SigningData::BroadcastVerificationStage2(report(Comm1(scheme(2, 3).commit(1)))), 0);
    assert_eq!(r.outcome, Some(Err((vec![B], FailureReason::InvalidContribution))));
}

#[test]
fn unknown_key_signing() {
    let mut keys: HashMap<KeyId, ToyScheme> = HashMap::new();
    keys.insert(KeyId(1), scheme(1, 3));
    let mut m: Node = CeremonyManager::new(A, TIMEOUT, 50, 1000);
    let key = keys.remove(&KeyId(0xdead));
    let r = m.start_signing(12, vec![A, B, C], key, payload(), ChainTag::Ethereum, 0);
    assert_eq!(r, Some(Err((vec![], FailureReason::UnknownKey))));
    assert_eq!(m.latest_ceremony_id, 12);
    assert!(m.find(12).is_none());
    assert!(m.take_outgoing().is_empty());
}

#[test]
fn duplicate_ceremony_id_is_rejected() {
    let mut m: Node = CeremonyManager::new(A, TIMEOUT, 50, 1000);
    assert!(m.start_signing(5, vec![A, B], Some(scheme(1, 2)), payload(), ChainTag::Ethereum, 0).is_none());
    let r = m.start_signing(5, vec![A, B], Some(scheme(1, 2)), payload(), ChainTag::Ethereum, 0);
    assert_eq!(r, Some(Err((vec![], FailureReason::DuplicateCeremonyId))));
    let r = m.start_signing(4, vec![A, B], Some(scheme(1, 2)), payload(), ChainTag::Ethereum, 0);
    assert_eq!(r, Some(Err((vec![], FailureReason::DuplicateCeremonyId))));
    assert_eq!(m.latest_ceremony_id, 5);
}

#[test]
fn malformed_or_foreign_participants_are_rejected() {
    let mut m: Node = CeremonyManager::new(A, TIMEOUT, 50, 1000);
    let r = m.start_signing(1, vec![B, A], Some(scheme(1, 2)), payload(), ChainTag::Ethereum, 0);
    assert_eq!(r, Some(Err((vec![], FailureReason::InvalidParticipants))));
    let r = m.start_signing(2, vec![B, C], Some(scheme(1, 2)), payload(), ChainTag::Ethereum, 0);
    assert_eq!(r, Some(Err((vec![], FailureReason::NotParticipating))));
    assert_eq!(m.latest_ceremony_id, 2);
}

#[test]
fn watermark_update_is_idempotent_below_the_mark() {
    let mut m: Node = CeremonyManager::new(A, TIMEOUT, 50, 1000);
    m.process_peer_message(B, 9, MultisigData::Signing(SigningData::CommStage1(comm1_of(2))), 0);
    m.update_latest_ceremony_id(6);
    assert_eq!(m.latest_ceremony_id, 6);
    m.update_latest_ceremony_id(6);
    m.update_latest_ceremony_id(3);
    assert_eq!(m.latest_ceremony_id, 6);
    assert!(m.find(9).is_some());
    m.update_latest_ceremony_id(9);
    assert_eq!(m.latest_ceremony_id, 9);
    assert!(m.find(9).is_none());
    // Messages for ids at or below the mark open nothing.
    m.process_peer_message(B, 8, MultisigData::Signing(SigningData::CommStage1(comm1_of(2))), 0);
    assert!(m.find(8).is_none());
}

#[test]
fn overall_limit_cancels_a_stuck_ceremony() {
    let mut m: Node = CeremonyManager::new(A, 5000, 50, 1000);
    assert!(m.start_signing(1, vec![A, B, C], Some(scheme(1, 3)), payload(), ChainTag::Ethereum, 10).is_none());
    m.process_peer_message(B, 1, MultisigData::Signing(SigningData::CommStage1(comm1_of(2))), 10);
    m.tick(1009);
    assert!(m.take_outcomes().is_empty());
    m.tick(1010);
    let outcomes = m.take_outcomes();
    assert_eq!(outcomes[0].result, Err((vec![C], FailureReason::Timeout)));
}

#[test]
fn outgoing_messages_go_to_every_other_party() {
    let mut m: Node = CeremonyManager::new(B, TIMEOUT, 50, 1000);
    assert!(m.start_signing(1, vec![A, B, C], Some(scheme(2, 3)), payload(), ChainTag::Ethereum, 0).is_none());
    let out = m.take_outgoing();
    assert_eq!(out.len(), 1);
    assert_eq!(out[0].recipients, vec![A, C]);
    let msg = deserialize_message(&out[0].bytes).unwrap();
    assert_eq!(msg.ceremony_id, 1);
    assert!(matches!(msg.data, MultisigData::Signing(SigningData::CommStage1(ref c)) if c.0.len() == 1));
}

#[test]
fn delayed_signing_bc1_gets_removed() {
    let mut client: Node = CeremonyManager::new(1, TIMEOUT, 1, 1000);
    client.process_peer_message(2, 11, MultisigData::Signing(SigningData::CommStage1(comm1_of(2))), 0);
    assert!(client.find(11).is_some());
    client.tick(1);
    assert!(client.find(11).is_none());
}

#[test]
fn should_process_delayed_bc1_after_rts() {
    let mut c1: Node = CeremonyManager::new(1, TIMEOUT, 50, 1000);
    assert!(c1.find(0x10).is_none());
    c1.process_peer_message(2, 0x10, MultisigData::Signing(SigningData::CommStage1(comm1_of(2))), 0);
    let i = c1.find(0x10).unwrap();
    assert!(matches!(c1.ceremonies[i].state, CeremonyState::Unauthorised(ref b, _) if b.len() == 1));
    assert!(c1.start_signing(0x10, vec![1, 2], Some(scheme(1, 2)), payload(), ChainTag::Ethereum, 0).is_none());
    let runner = runner_of(&c1, 0x10);
    assert!(runner.delayed.is_empty());
    assert_eq!(runner.stage_name, SigningStageName::VerifyCommitmentsBroadcast2);
}
