use czoodle::errors::{MyError, ValidationError};
use czoodle::models::{PollsWeb, VoteWeb};
use czoodle::nonce::{has_required_prefix, verify_nonce_chain};
use czoodle::validations::{
    is_permutation_of_slots, validate_d21_poll, validate_divide_poll, validate_doodle_poll,
    validate_nonces, validate_one_round_poll, validate_order, validate_order_poll,
    validate_nonce_rounds, validate_star_poll, validate_two_round_poll, validate_uuid,
    validate_vote, validate_vote_with_min_rounds, sum_values,
};

const UUID: &str = "123e4567-e89b-12d3-a456-426614174000";

fn chain() -> Vec<String> {
    vec!["14306".to_string(), "8649".to_string(), "3061".to_string()]
}

fn valid_vote() -> VoteWeb {
    VoteWeb {
        uuid: UUID.to_string(),
        nonces: chain(),
        order: vec![3, 1, 4, 0, 5, 9, 2, 6, 8, 7],
        polls: PollsWeb {
            two_round: -1,
            one_round: 3,
            divide: vec![5, 0, 0, 0, 0, 0, 0, 0, 0, 0],
            d21: vec![1, 0, 1, 0, 0, 0, 0, 0, 0, 0],
            doodle: vec![0, 2, 1, 0, 0, 0, 0, 0, 0, 0],
            order: vec![0, 1, 2, 3, 4, 5, 6, 7, 8, 9],
            star: vec![0, 0, 100, 0, 0, 50, 0, 0, 0, 0],
        },
    }
}

fn err(e: ValidationError) -> Result<(), MyError> {
    Err(MyError::ValidationError(e))
}

#[test]
fn minimal_one_round_ballot_is_valid() {
    let v = valid_vote();
    assert_eq!(validate_vote(&v), Ok(()));
    assert_eq!(validate_two_round_poll(&v), Ok(()));
    assert_eq!(validate_one_round_poll(&v), Ok(()));
}

#[test]
fn single_winner_bounds() {
    let mut v = valid_vote();
    v.polls.one_round = 10;
    assert_eq!(validate_one_round_poll(&v), err(ValidationError::OneRoundValue));
    v.polls.one_round = -2;
    assert_eq!(validate_one_round_poll(&v), err(ValidationError::OneRoundValue));
    v.polls.one_round = 9;
    assert_eq!(validate_one_round_poll(&v), Ok(()));
    v.polls.two_round = 10;
    assert_eq!(validate_two_round_poll(&v), err(ValidationError::TwoRoundValue));
    assert_eq!(validate_vote(&v), err(ValidationError::TwoRoundValue));
}

#[test]
fn uuid_must_have_36_characters() {
    let mut v = valid_vote();
    v.uuid = "short".to_string();
    assert_eq!(validate_uuid(&v), err(ValidationError::InvalidUuid));
    assert_eq!(validate_vote(&v), err(ValidationError::InvalidUuid));
}

#[test]
fn nonce_chain_of_three_links_is_accepted() {
    let v = valid_vote();
    assert_eq!(validate_nonces(&v), Ok(()));
    assert!(verify_nonce_chain(UUID, "czoodle", &chain(), 3));
    assert!(!verify_nonce_chain(UUID, "czoodle", &chain(), 4));
}

#[test]
fn empty_nonce_chain_passes_without_minimum() {
    let mut v = valid_vote();
    v.nonces = vec![];
    assert_eq!(validate_nonces(&v), Ok(()));
    assert!(!verify_nonce_chain(UUID, "czoodle", &vec![], 1));
}

#[test]
fn flipped_middle_nonce_breaks_the_chain() {
    let mut v = valid_vote();
    v.nonces[1] = "x".to_string();
    assert_eq!(validate_nonces(&v), err(ValidationError::InvalidNonce));
    assert_eq!(validate_vote(&v), err(ValidationError::InvalidNonce));
}

#[test]
fn chain_anchored_elsewhere_is_rejected() {
    assert!(!verify_nonce_chain(UUID, "other", &chain(), 0));
    assert!(verify_nonce_chain(UUID, "czoodle", &chain()[..2].to_vec(), 0));
}

#[test]
fn work_prefix_is_three_sevens() {
    assert!(has_required_prefix("777abc"));
    assert!(has_required_prefix("777"));
    assert!(!has_required_prefix("77"));
    assert!(!has_required_prefix("778"));
    assert!(!has_required_prefix(""));
}

#[test]
fn candidate_order_must_be_permutation() {
    let mut v = valid_vote();
    v.order = vec![0, 1, 2, 3, 4, 5, 6, 7, 8, 8];
    assert_eq!(validate_order(&v), err(ValidationError::OrderNotPermutation));
    assert_eq!(validate_vote(&v), err(ValidationError::OrderNotPermutation));
    v.order = vec![0, 1, 2, 3, 4, 5, 6, 7, 8, 10];
    assert_eq!(validate_order(&v), err(ValidationError::OrderNotPermutation));
    v.order = vec![0, 1, 2];
    assert_eq!(validate_order(&v), err(ValidationError::OrderLength));
    v.order = vec![-1, 1, 2, 3, 4, 5, 6, 7, 8, 9];
    assert_eq!(validate_order(&v), err(ValidationError::OrderNotPermutation));
}

#[test]
fn permutation_check_for_other_sizes() {
    assert!(is_permutation_of_slots(&vec![0], 1));
    assert!(!is_permutation_of_slots(&vec![1], 1));
    assert!(is_permutation_of_slots(&vec![2, 0, 1], 3));
    assert!(!is_permutation_of_slots(&vec![2, 2, 1], 3));
    assert!(!is_permutation_of_slots(&vec![0, 1], 3));
    assert!(is_permutation_of_slots(&vec![], 0));
}

#[test]
fn divide_budget_scenarios() {
    let mut v = valid_vote();
    v.polls.divide = vec![5, 0, 0, 0, 0, 0, 0, 0, 0, 0];
    assert_eq!(validate_divide_poll(&v), Ok(()));
    v.polls.divide = vec![4, 0, 0, 0, 0, 0, 0, 0, 0, 1];
    assert_eq!(validate_divide_poll(&v), Ok(()));
    v.polls.divide = vec![5, 1, 0, 0, 0, 0, 0, 0, 0, 0];
    assert_eq!(validate_divide_poll(&v), err(ValidationError::DivideSum));
    assert_eq!(validate_vote(&v), err(ValidationError::DivideSum));
    v.polls.divide = vec![5, 0, 0];
    assert_eq!(validate_divide_poll(&v), err(ValidationError::DivideLength));
    v.polls.divide = vec![7, -2, 0, 0, 0, 0, 0, 0, 0, 0];
    assert_eq!(validate_divide_poll(&v), Ok(()));
    v.polls.divide = vec![i32::MAX, i32::MAX, 0, 0, 0, 0, 0, 0, 0, 0];
    assert_eq!(validate_divide_poll(&v), err(ValidationError::DivideSum));
}

#[test]
fn d21_counts_not_positions_matter() {
    let mut v = valid_vote();
    v.polls.d21 = vec![1, 1, -1, 0, 0, 0, 0, 0, 0, 1];
    assert_eq!(validate_d21_poll(&v), Ok(()));
    v.polls.d21 = vec![-1, 1, 1, 1, 0, 0, 0, 0, 0, 0];
    assert_eq!(validate_d21_poll(&v), Ok(()));
}

#[test]
fn d21_rule_violations() {
    let mut v = valid_vote();
    v.polls.d21 = vec![0; 10];
    assert_eq!(validate_d21_poll(&v), err(ValidationError::D21NoPositive));
    v.polls.d21 = vec![1, 1, 1, 1, 0, 0, 0, 0, 0, 0];
    assert_eq!(validate_d21_poll(&v), err(ValidationError::D21TooManyPositive));
    v.polls.d21 = vec![1, 1, -1, -1, 0, 0, 0, 0, 0, 0];
    assert_eq!(validate_d21_poll(&v), err(ValidationError::D21TooManyNegative));
    v.polls.d21 = vec![1, -1, 0, 0, 0, 0, 0, 0, 0, 0];
    assert_eq!(validate_d21_poll(&v), err(ValidationError::D21TooManyNegative));
    v.polls.d21 = vec![1, 2, 0, 0, 0, 0, 0, 0, 0, 0];
    assert_eq!(validate_d21_poll(&v), err(ValidationError::D21Values));
    v.polls.d21 = vec![1];
    assert_eq!(validate_d21_poll(&v), err(ValidationError::D21Length));
    assert_eq!(validate_vote(&v), err(ValidationError::D21Length));
    v.polls.d21 = vec![1, 0, 0, 0, 0, 0, 0, 0, 0, 0];
    assert_eq!(validate_d21_poll(&v), Ok(()));
}

#[test]
fn doodle_rules() {
    let mut v = valid_vote();
    v.polls.doodle = vec![0; 10];
    assert_eq!(validate_doodle_poll(&v), err(ValidationError::DoodleNoPositive));
    v.polls.doodle = vec![3, 0, 0, 0, 0, 0, 0, 0, 0, 0];
    assert_eq!(validate_doodle_poll(&v), err(ValidationError::DoodleValues));
    v.polls.doodle = vec![1; 9];
    assert_eq!(validate_doodle_poll(&v), err(ValidationError::DoodleLength));
    assert_eq!(validate_vote(&v), err(ValidationError::DoodleLength));
    v.polls.doodle = vec![2; 10];
    assert_eq!(validate_doodle_poll(&v), Ok(()));
}

#[test]
fn order_poll_rules() {
    let mut v = valid_vote();
    v.polls.order = vec![9, 8, 7, 6, 5, 4, 3, 2, 1, 0];
    assert_eq!(validate_order_poll(&v), Ok(()));
    v.polls.order = vec![0, 0, 2, 3, 4, 5, 6, 7, 8, 9];
    assert_eq!(validate_order_poll(&v), err(ValidationError::OrderPollNotPermutation));
    assert_eq!(validate_vote(&v), err(ValidationError::OrderPollNotPermutation));
    v.polls.order = vec![0; 11];
    assert_eq!(validate_order_poll(&v), err(ValidationError::OrderPollLength));
}

#[test]
fn star_rules() {
    let mut v = valid_vote();
    v.polls.star = vec![0; 10];
    assert_eq!(validate_star_poll(&v), err(ValidationError::StarNoPositive));
    assert_eq!(validate_vote(&v), err(ValidationError::StarNoPositive));
    v.polls.star = vec![101, 0, 0, 0, 0, 0, 0, 0, 0, 0];
    assert_eq!(validate_star_poll(&v), err(ValidationError::StarValues));
    v.polls.star = vec![-1, 5, 0, 0, 0, 0, 0, 0, 0, 0];
    assert_eq!(validate_star_poll(&v), err(ValidationError::StarValues));
    v.polls.star = vec![];
    assert_eq!(validate_star_poll(&v), err(ValidationError::StarLength));
    v.polls.star = vec![100; 10];
    assert_eq!(validate_star_poll(&v), Ok(()));
}

#[test]
fn first_broken_rule_is_reported() {
    let mut v = valid_vote();
    v.polls.star = vec![0; 10];
    v.polls.divide = vec![0; 10];
    v.polls.one_round = 11;
    assert_eq!(validate_vote(&v), err(ValidationError::OneRoundValue));
    v.order = vec![];
    assert_eq!(validate_vote(&v), err(ValidationError::OrderLength));
}

#[test]
fn minimum_rounds_are_enforced_when_asked() {
    let mut v = valid_vote();
    assert_eq!(validate_vote_with_min_rounds(&v, 3), Ok(()));
    assert_eq!(validate_vote_with_min_rounds(&v, 4), err(ValidationError::InvalidNonce));
    assert_eq!(validate_nonce_rounds(&v, 3), Ok(()));
    v.nonces = vec![];
    assert_eq!(validate_vote(&v), Ok(()));
    assert_eq!(validate_vote_with_min_rounds(&v, 1), err(ValidationError::InvalidNonce));
}

#[test]
fn sums_of_long_sequences() {
    assert_eq!(sum_values(&vec![i32::MAX; 20]), 20 * i32::MAX as i64);
    assert_eq!(sum_values(&vec![i32::MIN; 15]), 15 * i32::MIN as i64);
    assert_eq!(sum_values(&vec![]), 0);
}

#[test]
fn d21_rearranged_slots_keep_the_verdict() {
    let mut v = valid_vote();
    let ballots = [
        vec![1, 1, -1, 1, 0, 0, 0, 0, 0, 0],
        vec![1, -1, 0, 0, 0, 0, 0, 0, 0, 0],
        vec![1, 1, 1, 1, 0, 0, 0, 0, 0, 0],
    ];
    for b in ballots.iter() {
        v.polls.d21 = b.clone();
        let before = validate_d21_poll(&v);
        let mut rotated = b.clone();
        rotated.rotate_left(3);
        v.polls.d21 = rotated.clone();
        assert_eq!(validate_d21_poll(&v), before);
        rotated.reverse();
        v.polls.d21 = rotated;
        assert_eq!(validate_d21_poll(&v), before);
    }
}
