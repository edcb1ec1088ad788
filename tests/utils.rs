use multisig::index_map::PartyIdxMapping;
use multisig::primitives::{KeyId, KeygenInfo, MultisigInstruction, SigningInfo};
use multisig::utils::{all_same, split_at, threshold_from_share_count, ThresholdParameters};

#[test]
fn test_split_at() {
    let (left, right) = split_at(vec![4, 5, 6, 3, 4, 5], 3);

    assert_eq!(&left[..], &[4, 5, 6]);
    assert_eq!(&right[..], &[3, 4, 5]);
}

#[test]
fn split_at_start_keeps_everything_right() {
    let (left, right) = split_at(vec![1u8, 2], 0);
    assert!(left.is_empty());
    assert_eq!(right, vec![1, 2]);
}

#[test]
fn all_same_gives_the_common_item() {
    assert_eq!(all_same(vec![3, 3, 3]), Some(3));
    assert_eq!(all_same(vec![7]), Some(7));
    assert_eq!(all_same(vec![3, 3, 4]), None);
    assert_eq!(all_same(vec![4, 3, 3]), None);
}

#[test]
fn threshold_is_two_thirds_rounded_up_minus_one() {
    assert_eq!(threshold_from_share_count(1), 0);
    assert_eq!(threshold_from_share_count(2), 1);
    assert_eq!(threshold_from_share_count(3), 1);
    assert_eq!(threshold_from_share_count(4), 2);
    assert_eq!(threshold_from_share_count(150), 99);
    assert_eq!(threshold_from_share_count(0), 0);
    let p = ThresholdParameters::from_share_count(7);
    assert_eq!(p, ThresholdParameters { share_count: 7, threshold: 4 });
}

#[test]
fn index_map_assigns_indices_in_account_order() {
    let m = PartyIdxMapping::from_participants(vec![10, 20, 30]).unwrap();
    assert_eq!(m.num_parties(), 3);
    assert_eq!(m.get_idx(10), Some(1));
    assert_eq!(m.get_idx(30), Some(3));
    assert_eq!(m.get_idx(25), None);
    assert_eq!(m.get_id(2), 20);
    assert_eq!(m.ids(), vec![10, 20, 30]);
}

#[test]
fn index_map_rejects_malformed_sets() {
    assert!(PartyIdxMapping::from_participants(vec![]).is_none());
    assert!(PartyIdxMapping::from_participants(vec![20, 10]).is_none());
    assert!(PartyIdxMapping::from_participants(vec![10, 10]).is_none());
}

#[test]
fn requests_keep_their_fields() {
    let k = KeygenInfo::new(KeyId(5), vec![1, 2, 3]);
    assert_eq!(k.id, KeyId(5));
    assert_eq!(k.signers, vec![1, 2, 3]);
    let s = SigningInfo::new(KeyId(6), vec![1, 2]);
    assert_eq!(s.id, KeyId(6));
    assert_eq!(s.signers, vec![1, 2]);
    let i = MultisigInstruction::Sign(b"message".to_vec(), s);
    assert!(matches!(i, MultisigInstruction::Sign(_, SigningInfo { id: KeyId(6), .. })));
}
