use multisig::messages::BroadcastVerificationMessage;
use multisig::verification::verify_broadcasts;

fn report(values: &[Option<u8>]) -> Option<BroadcastVerificationMessage<Vec<u8>>> {
    Some(BroadcastVerificationMessage { data: values.iter().map(|v| v.map(|x| vec![x])).collect() })
}

#[test]
fn agreed_values_are_the_majority_reports() {
    let reports = vec![
        report(&[Some(1), Some(2), Some(3)]),
        report(&[Some(1), Some(2), Some(3)]),
        report(&[Some(1), Some(9), Some(3)]),
    ];
    let agreed = verify_broadcasts(&reports).unwrap();
    assert_eq!(agreed, vec![vec![1], vec![2], vec![3]]);
}

#[test]
fn divergent_sender_without_majority_is_blamed() {
    // Party 2 sent x to party 1, y to party 3 and claims z itself.
    let reports = vec![
        report(&[Some(1), Some(10), Some(3)]),
        report(&[Some(1), Some(12), Some(3)]),
        report(&[Some(1), Some(11), Some(3)]),
    ];
    assert_eq!(verify_broadcasts(&reports), Err(vec![2]));
}

#[test]
fn silent_reporter_and_agreed_absence_are_blamed() {
    let reports = vec![report(&[Some(1), None, Some(3)]), report(&[Some(1), None, Some(3)]), None];
    assert_eq!(verify_broadcasts(&reports), Err(vec![2, 3]));
}

#[test]
fn half_of_the_votes_is_not_a_majority() {
    let reports = vec![
        report(&[Some(1), Some(1), Some(1), Some(1)]),
        report(&[Some(1), Some(1), Some(1), Some(1)]),
        report(&[Some(2), Some(1), Some(1), Some(1)]),
        report(&[Some(2), Some(1), Some(1), Some(1)]),
    ];
    assert_eq!(verify_broadcasts(&reports), Err(vec![1]));
}
