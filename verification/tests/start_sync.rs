use boomerang_federated::start_sync::negotiate_start_time;

#[test]
fn test_start_time_sync() {
    let proposals = vec![1_700_000_000_000_000_123i128, 1_700_000_000_000_000_456i128];
    let rti_start_time = negotiate_start_time(&proposals);
    assert_eq!(rti_start_time, 1_700_000_000_000_000_456);
    assert!(proposals.iter().all(|p| *p <= rti_start_time));
}

#[test]
fn single_proposal_is_the_start_time() {
    assert_eq!(negotiate_start_time(&vec![-5]), -5);
    assert_eq!(negotiate_start_time(&vec![3, 9, 9, 2]), 9);
}
