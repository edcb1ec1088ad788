use multisig::codec::deserialize_message;
use multisig::keygen::KeygenScheme;
use multisig::manager::{CeremonyManager, CeremonyState};
use multisig::messages::{Comm1, LocalSig3, SigningCommitment};
use multisig::primitives::{AccountId, FailureReason};
use multisig::runner::SigningScheme;
use multisig::stages::{KeygenData, KeygenStageName, MultisigData};

const TIMEOUT: u64 = 100;

/// A stand-in scheme: commitments name their dealer, the share dealt by `i`
/// to `j` is `[i, j]`, and the key is every party's commitments in order.
struct ToyKeygen {
    idx: u8,
    bad_coefficients: bool,
    bad_share_to: Option<u32>,
}

impl KeygenScheme for ToyKeygen {
    fn hash_commitment(&mut self) -> Vec<u8> {
        vec![self.idx, 0x11]
    }
    fn coefficient_commitments(&mut self) -> Vec<u8> {
        if self.bad_coefficients { vec![0xff] } else { vec![self.idx, 0xcc] }
    }
    fn check_coefficients(&self, idx: u32, hash: &Vec<u8>, coefficients: &Vec<u8>) -> bool {
        *hash == vec![idx as u8, 0x11] && *coefficients == vec![idx as u8, 0xcc]
    }
    fn secret_share(&mut self, idx: u32, _coefficients: &Vec<Vec<u8>>) -> Vec<u8> {
        if self.bad_share_to == Some(idx) { vec![0] } else { vec![self.idx, idx as u8] }
    }
    fn check_share(&self, idx: u32, share: &Vec<u8>, _coefficients: &Vec<Vec<u8>>) -> bool {
        *share == vec![idx as u8, self.idx]
    }
    fn finalize(&mut self, coefficients: &Vec<Vec<u8>>, _shares: &Vec<Vec<u8>>) -> Vec<u8> {
        coefficients.concat()
    }
}

/// No signing happens in these tests.
struct NoSigning;

impl SigningScheme for NoSigning {
    fn commit(&mut self, _num_payloads: usize) -> Vec<SigningCommitment> {
        vec![]
    }
    fn respond(&mut self, _c: &Vec<Comm1>, _p: &Vec<Vec<u8>>) -> Vec<Vec<u8>> {
        vec![]
    }
    fn verify_local_sig(&self, _c: &Vec<Comm1>, _p: &Vec<Vec<u8>>, _i: u32, _s: &LocalSig3) -> bool {
        false
    }
    fn aggregate(&self, _c: &Vec<Comm1>, _p: &Vec<Vec<u8>>, _s: &Vec<LocalSig3>) -> Vec<Vec<u8>> {
        vec![]
    }
    fn verify_signature(&self, _p: &Vec<u8>, _s: &Vec<u8>) -> bool {
        false
    }
}

type Node = CeremonyManager<NoSigning, ToyKeygen>;

fn toy(idx: u8) -> ToyKeygen {
    ToyKeygen { idx, bad_coefficients: false, bad_share_to: None }
}

fn run_network(nodes: &mut Vec<(AccountId, Node)>, silent: &[AccountId], now: u64) {
    loop {
        let mut sent = false;
        for i in 0..nodes.len() {
            let from = nodes[i].0;
            let out = nodes[i].1.take_outgoing();
            if silent.contains(&from) {
                continue;
            }
            for m in out {
                for r in m.recipients {
                    let msg = deserialize_message(&m.bytes).expect("well formed");
                    let j = nodes.iter().position(|(a, _)| *a == r).unwrap();
                    nodes[j].1.process_peer_message(from, msg.ceremony_id, msg.data, now);
                    sent = true;
                }
            }
        }
        if !sent {
            break;
        }
    }
}

fn keygen_network(schemes: Vec<ToyKeygen>, id: u64) -> Vec<(AccountId, Node)> {
    let accounts: Vec<AccountId> = (1..=schemes.len() as u64).collect();
    let mut nodes: Vec<(AccountId, Node)> =
        accounts.iter().map(|a| (*a, CeremonyManager::new(*a, TIMEOUT, 50, 1000))).collect();
    for ((_, m), s) in nodes.iter_mut().zip(schemes) {
        assert!(m.start_keygen(id, accounts.clone(), s, 0).is_none());
    }
    nodes
}

fn keygen_stage_for(m: &Node, id: u64) -> Option<KeygenStageName> {
    let i = m.find(id)?;
    match &m.ceremonies[i].state {
        CeremonyState::AuthorisedKeygen(r) => Some(r.stage_name),
        _ => None,
    }
}

fn keygen_delayed_count(m: &Node, id: u64) -> usize {
    match m.find(id) {
        Some(i) => match &m.ceremonies[i].state {
            CeremonyState::Unauthorised(b, _) => b.len(),
            CeremonyState::AuthorisedKeygen(r) => r.delayed.len(),
            _ => 0,
        },
        None => 0,
    }
}

#[test]
fn keygen_happy_path_gives_every_party_the_same_key() {
    let mut nodes = keygen_network(vec![toy(1), toy(2), toy(3)], 1);
    run_network(&mut nodes, &[], 0);
    for (_, m) in nodes.iter_mut() {
        let outcomes = m.take_keygen_outcomes();
        assert_eq!(outcomes.len(), 1);
        assert_eq!(outcomes[0].result, Ok(vec![1, 0xcc, 2, 0xcc, 3, 0xcc]));
        assert!(m.find(1).is_none());
    }
}

#[test]
fn bc1_gets_delayed_until_keygen_request() {
    let mut client: Node = CeremonyManager::new(1, TIMEOUT, 50, 1000);

    assert_eq!(keygen_stage_for(&client, 0), None);

    client.process_peer_message(2, 1, MultisigData::Keygen(KeygenData::HashComm1(vec![2, 0x11])), 0);

    assert_eq!(keygen_stage_for(&client, 1), None);
    assert_eq!(keygen_delayed_count(&client, 1), 1);

    // The keygen request starts the ceremony and processes the delayed message
    assert!(client.start_keygen(1, vec![1, 2, 3], toy(1), 0).is_none());

    assert_eq!(keygen_stage_for(&client, 1), Some(KeygenStageName::HashCommit1));
    assert_eq!(keygen_delayed_count(&client, 1), 0);

    // One more message completes the stage (three parties)
    client.process_peer_message(3, 1, MultisigData::Keygen(KeygenData::HashComm1(vec![3, 0x11])), 0);

    assert_eq!(keygen_stage_for(&client, 1), Some(KeygenStageName::VerifyHashCommit2));
}

#[test]
fn mismatched_coefficients_are_blamed() {
    let bad = ToyKeygen { idx: 2, bad_coefficients: true, bad_share_to: None };
    let mut nodes = keygen_network(vec![toy(1), bad, toy(3)], 2);
    run_network(&mut nodes, &[], 0);
    for (_, m) in nodes.iter_mut() {
        let outcomes = m.take_keygen_outcomes();
        assert_eq!(outcomes[0].result, Err((vec![2], FailureReason::InvalidContribution)));
    }
}

#[test]
fn bad_secret_share_is_blamed() {
    let bad = ToyKeygen { idx: 3, bad_coefficients: false, bad_share_to: Some(1) };
    let mut nodes = keygen_network(vec![toy(1), toy(2), bad], 3);
    run_network(&mut nodes, &[], 0);
    for (_, m) in nodes.iter_mut() {
        let outcomes = m.take_keygen_outcomes();
        assert_eq!(outcomes[0].result, Err((vec![3], FailureReason::InvalidContribution)));
    }
}

#[test]
fn silent_party_in_keygen_times_out() {
    let mut nodes = keygen_network(vec![toy(1), toy(2), toy(3)], 4);
    run_network(&mut nodes, &[2], 0);
    let m = &mut nodes[0].1;
    m.tick(TIMEOUT);
    let outcomes = m.take_keygen_outcomes();
    assert_eq!(outcomes[0].result, Err((vec![2], FailureReason::Timeout)));
}

#[test]
fn keygen_rejects_duplicates_and_outsiders() {
    let mut m: Node = CeremonyManager::new(1, TIMEOUT, 50, 1000);
    assert_eq!(
        m.start_keygen(3, vec![2, 3], toy(1), 0),
        Some(Err((vec![], FailureReason::NotParticipating)))
    );
    assert_eq!(
        m.start_keygen(3, vec![1, 2], toy(1), 0),
        Some(Err((vec![], FailureReason::DuplicateCeremonyId)))
    );
    assert_eq!(
        m.start_keygen(4, vec![1, 1], toy(1), 0),
        Some(Err((vec![], FailureReason::InvalidParticipants)))
    );
}

#[test]
fn secret_shares_are_sent_privately() {
    let mut m: Node = CeremonyManager::new(1, TIMEOUT, 50, 1000);
    assert!(m.start_keygen(1, vec![1, 2], toy(1), 0).is_none());
    m.take_outgoing();
    m.process_peer_message(2, 1, MultisigData::Keygen(KeygenData::HashComm1(vec![2, 0x11])), 0);
    let verify = |own: u8| multisig::messages::BroadcastVerificationMessage {
        data: vec![Some(vec![1, 0x11]), Some(vec![own, 0x11])],
    };
    m.process_peer_message(2, 1, MultisigData::Keygen(KeygenData::VerifyHashComm2(verify(2))), 0);
    m.process_peer_message(2, 1, MultisigData::Keygen(KeygenData::CoeffComm3(vec![2, 0xcc])), 0);
    m.process_peer_message(2, 1, MultisigData::Keygen(KeygenData::Complaints4(vec![0, 0])), 0);
    let clear = multisig::messages::BroadcastVerificationMessage { data: vec![Some(vec![0, 0]), Some(vec![0, 0])] };
    m.process_peer_message(2, 1, MultisigData::Keygen(KeygenData::VerifyComplaints5(clear)), 0);
    assert_eq!(keygen_stage_for(&m, 1), Some(KeygenStageName::SecretShares6));
    let out = m.take_outgoing();
    let last = out.last().unwrap();
    assert_eq!(last.recipients, vec![2]);
    let msg = deserialize_message(&last.bytes).unwrap();
    assert!(matches!(msg.data, MultisigData::Keygen(KeygenData::SecretShares6(ref s)) if *s == vec![1, 2]));
}
