use bubble_bridge::cloud::match_uploads;

#[test]
fn results_matched_by_signature() {
    let sigs = vec![vec![1u8, 1], vec![2u8], vec![1u8, 1]];
    let records = vec!["r0".to_string(), "r1".to_string(), "r2".to_string()];
    let results = vec![vec![2u8], vec![1u8, 1]];
    assert_eq!(match_uploads(&sigs, &records, &results), vec!["r1".to_string(), "r0".to_string()]);
}
