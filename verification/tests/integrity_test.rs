use rust_chat::bot::integrity::{
    check_vote_integrity, pick_actual_snapshot, tally_votes, vote_integrity, FickleResult,
};

fn saw(last_vote: Option<usize>, last_snapshot: Option<[u64; 4]>) -> FickleResult {
    FickleResult { last_vote, last_snapshot }
}

#[test]
fn tally_votes_basic() {
    let votes = vec![Some(0), Some(1), Some(2), Some(3)];
    let result = tally_votes(&votes);
    assert_eq!(result, [1, 1, 1, 1]);
}

#[test]
fn tally_votes_multiple_same_option() {
    let votes = vec![Some(0), Some(0), Some(1), Some(2), Some(2), Some(2)];
    let result = tally_votes(&votes);
    assert_eq!(result, [2, 1, 3, 0]);
}

#[test]
fn tally_votes_empty_input() {
    let votes: Vec<Option<usize>> = vec![];
    let result = tally_votes(&votes);
    assert_eq!(result, [0, 0, 0, 0]);
}

#[test]
fn tally_votes_none_excluded() {
    let votes = vec![Some(0), None, Some(1), None];
    let result = tally_votes(&votes);
    assert_eq!(result, [1, 1, 0, 0]);
}

#[test]
fn tally_votes_out_of_range_excluded() {
    let votes = vec![Some(0), Some(4), Some(100), Some(3)];
    let result = tally_votes(&votes);
    assert_eq!(result, [1, 0, 0, 1]);
}

#[test]
fn tally_votes_all_none() {
    let votes = vec![None, None, None];
    let result = tally_votes(&votes);
    assert_eq!(result, [0, 0, 0, 0]);
}

#[test]
fn tally_sums_up_to_the_valid_votes() {
    let votes = vec![Some(0), Some(4), None, Some(3), Some(3), Some(usize::MAX)];
    let result = tally_votes(&votes);
    assert_eq!(result.iter().sum::<u64>(), 3);
}

#[test]
fn check_vote_integrity_pass() {
    let expected = [3, 2, 1, 4];
    let actual = [3, 2, 1, 4];
    let result = check_vote_integrity(expected, actual, 10);
    assert!(result.passed);
    assert_eq!(result.expected, expected);
    assert_eq!(result.actual, actual);
    assert_eq!(result.fickle_count, 10);
}

#[test]
fn check_vote_integrity_fail() {
    let expected = [3, 2, 1, 4];
    let actual = [2, 2, 1, 4];
    let result = check_vote_integrity(expected, actual, 10);
    assert!(!result.passed);
    assert_eq!(result.expected, expected);
    assert_eq!(result.actual, actual);
    assert_eq!(result.fickle_count, 10);
}

#[test]
fn equal_sums_are_not_enough() {
    assert!(!check_vote_integrity([3, 2, 1, 4], [2, 3, 1, 4], 10).passed);
}

#[test]
fn the_majority_is_believed() {
    let results = vec![
        saw(Some(0), Some([1, 0, 0, 0])),
        saw(Some(0), Some([2, 0, 0, 1])),
        saw(Some(0), Some([2, 0, 0, 1])),
        saw(Some(3), Some([1, 0, 0, 1])),
    ];
    assert_eq!(pick_actual_snapshot(&results), [2, 0, 0, 1]);
}

#[test]
fn a_tie_goes_to_the_later_bot() {
    let results = vec![
        saw(Some(0), Some([1, 0, 0, 0])),
        saw(Some(1), Some([1, 1, 0, 0])),
        saw(Some(2), None),
    ];
    assert_eq!(pick_actual_snapshot(&results), [1, 1, 0, 0]);
}

#[test]
fn who_saw_nothing_says_nothing() {
    let results = vec![saw(Some(0), None), saw(None, None)];
    assert_eq!(pick_actual_snapshot(&results), [0, 0, 0, 0]);
}

#[test]
fn runs_without_fickle_bots_are_not_judged() {
    assert!(vote_integrity(&vec![]).is_none());
}

#[test]
fn stragglers_do_not_fail_a_run() {
    let results = vec![
        saw(Some(0), Some([1, 0, 1, 0])),
        saw(Some(2), Some([1, 0, 1, 0])),
        saw(None, Some([1, 0, 0, 0])),
    ];
    let verdict = vote_integrity(&results).unwrap();
    assert!(verdict.passed);
    assert_eq!(verdict.expected, [1, 0, 1, 0]);
    assert_eq!(verdict.actual, [1, 0, 1, 0]);
    assert_eq!(verdict.fickle_count, 3);
}

#[test]
fn a_lost_vote_fails_a_run() {
    let results = vec![
        saw(Some(0), Some([1, 0, 0, 0])),
        saw(Some(2), Some([1, 0, 0, 0])),
    ];
    let verdict = vote_integrity(&results).unwrap();
    assert!(!verdict.passed);
    assert_eq!(verdict.expected, [1, 0, 1, 0]);
}
