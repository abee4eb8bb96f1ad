//! The rules that a submission must meet before it is stored.

use vstd::prelude::*;
use vstd::string::StrSliceExecFns;
use crate::errors::{invalid, MyError, ValidationError};
use crate::models::{VoteView, VoteWeb};
use crate::nonce::{chain_holds, verify_nonce_chain};

verus! {

/// The number of candidates; every ballot has one entry per candidate slot.
pub const CANDIDATE_COUNT: usize = 10;

/// The number of points that a divide ballot spreads over the candidates.
pub const DIVIDE_BUDGET: i32 = 5;

/// The length of an identifier in canonical UUID text form.
pub const UUID_LENGTH: usize = 36;

/// `s` is a permutation of the slots `0..n`: one entry per slot, each in
/// range, no two equal.
pub open spec fn is_permutation(s: Seq<i32>, n: nat) -> bool {
    &&& s.len() == n
    &&& forall|i: int| 0 <= i < s.len() ==> 0 <= #[trigger] s[i] < n
    &&& forall|i: int, j: int| 0 <= i < j < s.len() ==> s[i] != s[j]
}

/// How many entries of `s` are positive.
pub open spec fn count_positive(s: Seq<i32>) -> nat
    decreases s.len(),
{
    if s.len() == 0 {
        0
    } else {
        count_positive(s.drop_last()) + if s.last() > 0 { 1nat } else { 0nat }
    }
}

/// How many entries of `s` are negative.
pub open spec fn count_negative(s: Seq<i32>) -> nat
    decreases s.len(),
{
    if s.len() == 0 {
        0
    } else {
        count_negative(s.drop_last()) + if s.last() < 0 { 1nat } else { 0nat }
    }
}

/// The sum of the entries of `s`.
pub open spec fn sum_of(s: Seq<i32>) -> int
    decreases s.len(),
{
    if s.len() == 0 {
        0
    } else {
        sum_of(s.drop_last()) + s.last()
    }
}

/// Every entry of `s` lies in `[lo, hi]`.
pub open spec fn all_within(s: Seq<i32>, lo: int, hi: int) -> bool {
    forall|i: int| 0 <= i < s.len() ==> lo <= #[trigger] s[i] <= hi
}

/// Whether `values` is a permutation of the slots `0..n`.
pub fn is_permutation_of_slots(values: &Vec<i32>, n: usize) -> (r: bool)
    ensures
        r == is_permutation(values@, n as nat),
{
    if values.len() != n {
        return false;
    }
    let mut seen: Vec<bool> = Vec::new();
    let mut k: usize = 0;
    while k < n
        invariant
            k <= n,
            seen@.len() == k,
            forall|j: int| 0 <= j < k ==> !#[trigger] seen@[j],
        decreases n - k,
    {
        seen.push(false);
        k = k + 1;
    }
    let mut i: usize = 0;
    while i < n
        invariant
            i <= n,
            values@.len() == n,
            seen@.len() == n,
            forall|j: int| 0 <= j < i ==> 0 <= #[trigger] values@[j] < n,
            forall|j: int, l: int| 0 <= j < l < i ==> values@[j] != values@[l],
            forall|s: int|
                0 <= s < n ==> (#[trigger] seen@[s] <==> exists|j: int| 0 <= j < i && values@[j] == s),
        decreases n - i,
    {
        let v = values[i];
        if v < 0 || v as usize >= n {
            return false;
        }
        let slot = v as usize;
        if seen[slot] {
            proof {
                let j = choose|j: int| 0 <= j < i && values@[j] == slot as int;
                assert(values@[j] == values@[i as int]);
            }
            return false;
        }
        seen.set(slot, true);
        proof {
            assert forall|s: int| 0 <= s < n implies (#[trigger] seen@[s] <==> exists|j: int|
                0 <= j < i + 1 && values@[j] == s) by {
                if s == slot as int {
                    assert(values@[i as int] == s);
                } else {
                    if exists|j: int| 0 <= j < i + 1 && values@[j] == s {
                        let j = choose|j: int| 0 <= j < i + 1 && values@[j] == s;
                        assert(j < i);
                    }
                }
            }
            assert forall|j: int, l: int| 0 <= j < l < i + 1 implies values@[j] != values@[l] by {
                if l == i && values@[j] == values@[l] {
                    assert(seen@[slot as int]);
                }
            }
        }
        i = i + 1;
    }
    true
}


/// How many entries of `values` are positive.
pub fn count_positive_values(values: &Vec<i32>) -> (r: usize)
    ensures
        r == count_positive(values@),
{
    let mut count: usize = 0;
    let mut i: usize = 0;
    while i < values.len()
        invariant
            i <= values@.len(),
            count == count_positive(values@.subrange(0, i as int)),
            count <= i,
        decreases values@.len() - i,
    {
        proof {
            assert(values@.subrange(0, i + 1).drop_last() =~= values@.subrange(0, i as int));
        }
        if values[i] > 0 {
            count = count + 1;
        }
        i = i + 1;
    }
    proof {
        assert(values@.subrange(0, values@.len() as int) =~= values@);
    }
    count
}

/// How many entries of `values` are negative.
pub fn count_negative_values(values: &Vec<i32>) -> (r: usize)
    ensures
        r == count_negative(values@),
{
    let mut count: usize = 0;
    let mut i: usize = 0;
    while i < values.len()
        invariant
            i <= values@.len(),
            count == count_negative(values@.subrange(0, i as int)),
            count <= i,
        decreases values@.len() - i,
    {
        proof {
            assert(values@.subrange(0, i + 1).drop_last() =~= values@.subrange(0, i as int));
        }
        if values[i] < 0 {
            count = count + 1;
        }
        i = i + 1;
    }
    proof {
        assert(values@.subrange(0, values@.len() as int) =~= values@);
    }
    count
}

/// Whether every entry of `values` lies in `[lo, hi]`.
pub fn all_values_within(values: &Vec<i32>, lo: i32, hi: i32) -> (r: bool)
    ensures
        r == all_within(values@, lo as int, hi as int),
{
    let mut i: usize = 0;
    while i < values.len()
        invariant
            i <= values@.len(),
            forall|j: int| 0 <= j < i ==> lo <= #[trigger] values@[j] <= hi,
        decreases values@.len() - i,
    {
        if values[i] < lo || values[i] > hi {
            return false;
        }
        i = i + 1;
    }
    true
}

/// The sum of the entries of `values`.
pub fn sum_values(values: &Vec<i32>) -> (r: i64)
    requires
        values@.len() <= u32::MAX,
    ensures
        r == sum_of(values@),
{
    let mut sum: i64 = 0;
    let mut i: usize = 0;
    while i < values.len()
        invariant
            i <= values@.len(),
            values@.len() <= u32::MAX,
            sum == sum_of(values@.subrange(0, i as int)),
            -2147483648 * i <= sum <= 2147483647 * i,
        decreases values@.len() - i,
    {
        proof {
            assert(values@.subrange(0, i + 1).drop_last() =~= values@.subrange(0, i as int));
        }
        sum = sum + values[i] as i64;
        i = i + 1;
    }
    proof {
        assert(values@.subrange(0, values@.len() as int) =~= values@);
    }
    sum
}


/// The text appended to the identifier to anchor the nonce chain.
pub open spec fn nonce_tag() -> Seq<char> {
    seq!['c', 'z', 'o', 'o', 'd', 'l', 'e']
}

/// `first` when it is an error, otherwise `second`.
pub open spec fn then_check(first: Result<(), MyError>, second: Result<(), MyError>) -> Result<(), MyError> {
    if first is Err {
        first
    } else {
        second
    }
}

pub open spec fn uuid_check(v: VoteView) -> Result<(), MyError> {
    if v.uuid.len() == UUID_LENGTH {
        Ok(())
    } else {
        invalid(ValidationError::InvalidUuid)
    }
}

/// The nonces must number at least `min_rounds` and form a valid chain
/// anchored at the identifier.
pub open spec fn nonce_check(v: VoteView, min_rounds: nat) -> Result<(), MyError> {
    if v.nonces.len() >= min_rounds && chain_holds(v.uuid + nonce_tag(), v.nonces) {
        Ok(())
    } else {
        invalid(ValidationError::InvalidNonce)
    }
}

/// A ballot that must rank every candidate: first its length, then the permutation.
pub open spec fn permutation_check(
    s: Seq<i32>,
    length_error: ValidationError,
    order_error: ValidationError,
) -> Result<(), MyError> {
    if s.len() != CANDIDATE_COUNT {
        invalid(length_error)
    } else if !is_permutation(s, CANDIDATE_COUNT as nat) {
        invalid(order_error)
    } else {
        Ok(())
    }
}

/// A single-winner choice is a candidate slot or -1, the abstention.
pub open spec fn is_single_winner_choice(v: i32) -> bool {
    -1 <= v < CANDIDATE_COUNT
}

pub open spec fn single_winner_check(v: i32, e: ValidationError) -> Result<(), MyError> {
    if is_single_winner_choice(v) {
        Ok(())
    } else {
        invalid(e)
    }
}

pub open spec fn divide_check(s: Seq<i32>) -> Result<(), MyError> {
    if s.len() != CANDIDATE_COUNT {
        invalid(ValidationError::DivideLength)
    } else if sum_of(s) != DIVIDE_BUDGET {
        invalid(ValidationError::DivideSum)
    } else {
        Ok(())
    }
}

/// The cardinality rule of D21: one to three positive votes, at most one
/// negative vote, and a negative vote only beside at least two positive ones.
pub open spec fn d21_counts_ok(positive: nat, negative: nat) -> bool {
    1 <= positive <= 3 && negative <= 1 && (negative == 0 || positive >= 2)
}

pub open spec fn d21_check(s: Seq<i32>) -> Result<(), MyError> {
    let p = count_positive(s);
    let m = count_negative(s);
    if s.len() != CANDIDATE_COUNT {
        invalid(ValidationError::D21Length)
    } else if !all_within(s, -1, 1) {
        invalid(ValidationError::D21Values)
    } else if p == 0 {
        invalid(ValidationError::D21NoPositive)
    } else if p > 3 {
        invalid(ValidationError::D21TooManyPositive)
    } else if m > 1 || (p < 2 && m > 0) {
        invalid(ValidationError::D21TooManyNegative)
    } else {
        Ok(())
    }
}

/// A ballot of levels in `[lo, hi]` with at least one positive level.
pub open spec fn levels_check(
    s: Seq<i32>,
    lo: int,
    hi: int,
    length_error: ValidationError,
    value_error: ValidationError,
    empty_error: ValidationError,
) -> Result<(), MyError> {
    if s.len() != CANDIDATE_COUNT {
        invalid(length_error)
    } else if !all_within(s, lo, hi) {
        invalid(value_error)
    } else if count_positive(s) == 0 {
        invalid(empty_error)
    } else {
        Ok(())
    }
}

pub open spec fn doodle_check(s: Seq<i32>) -> Result<(), MyError> {
    levels_check(
        s,
        0,
        2,
        ValidationError::DoodleLength,
        ValidationError::DoodleValues,
        ValidationError::DoodleNoPositive,
    )
}

pub open spec fn star_check(s: Seq<i32>) -> Result<(), MyError> {
    levels_check(
        s,
        0,
        100,
        ValidationError::StarLength,
        ValidationError::StarValues,
        ValidationError::StarNoPositive,
    )
}

/// The verdict on a whole submission: the first rule broken, taken in the
/// order identifier, nonce chain, candidate order, one-round, two-round,
/// divide, D21, doodle, order poll, star. The chain must have at least
/// `min_rounds` links.
pub open spec fn vote_check(v: VoteView, min_rounds: nat) -> Result<(), MyError> {
    then_check(uuid_check(v),
    then_check(nonce_check(v, min_rounds),
    then_check(permutation_check(v.order, ValidationError::OrderLength, ValidationError::OrderNotPermutation),
    then_check(single_winner_check(v.polls.one_round, ValidationError::OneRoundValue),
    then_check(single_winner_check(v.polls.two_round, ValidationError::TwoRoundValue),
    then_check(divide_check(v.polls.divide),
    then_check(d21_check(v.polls.d21),
    then_check(doodle_check(v.polls.doodle),
    then_check(permutation_check(v.polls.order, ValidationError::OrderPollLength, ValidationError::OrderPollNotPermutation),
    star_check(v.polls.star))))))))))
}

/// The identifier must be 36 characters long.
pub fn validate_uuid(vote: &VoteWeb) -> (r: Result<(), MyError>)
    ensures
        r == uuid_check(vote@),
{
    if vote.uuid.as_str().unicode_len() != UUID_LENGTH {
        return Err(MyError::ValidationError(ValidationError::InvalidUuid));
    }
    Ok(())
}

/// The nonces must form a valid proof-of-work chain anchored at the
/// identifier; an empty chain passes.
pub fn validate_nonces(vote: &VoteWeb) -> (r: Result<(), MyError>)
    ensures
        r == nonce_check(vote@, 0),
{
    validate_nonce_rounds(vote, 0)
}

/// The nonces must form a valid proof-of-work chain anchored at the
/// identifier, with at least `min_rounds` links.
pub fn validate_nonce_rounds(vote: &VoteWeb, min_rounds: usize) -> (r: Result<(), MyError>)
    ensures
        r == nonce_check(vote@, min_rounds as nat),
{
    let tag = "czoodle";
    proof {
        reveal_strlit("czoodle");
        assert(tag@ =~= nonce_tag());
    }
    if !verify_nonce_chain(vote.uuid.as_str(), tag, &vote.nonces, min_rounds) {
        return Err(MyError::ValidationError(ValidationError::InvalidNonce));
    }
    Ok(())
}

/// The candidate order must be a permutation of the candidate slots.
pub fn validate_order(vote: &VoteWeb) -> (r: Result<(), MyError>)
    ensures
        r == permutation_check(vote.order@, ValidationError::OrderLength, ValidationError::OrderNotPermutation),
{
    if vote.order.len() != CANDIDATE_COUNT {
        return Err(MyError::ValidationError(ValidationError::OrderLength));
    }
    if !is_permutation_of_slots(&vote.order, CANDIDATE_COUNT) {
        return Err(MyError::ValidationError(ValidationError::OrderNotPermutation));
    }
    Ok(())
}

/// The two-round choice must be a candidate slot or the abstention -1.
pub fn validate_two_round_poll(vote: &VoteWeb) -> (r: Result<(), MyError>)
    ensures
        r == single_winner_check(vote.polls.two_round, ValidationError::TwoRoundValue),
{
    let v = vote.polls.two_round;
    if v < -1 || v >= CANDIDATE_COUNT as i32 {
        return Err(MyError::ValidationError(ValidationError::TwoRoundValue));
    }
    Ok(())
}

/// The one-round choice must be a candidate slot or the abstention -1.
pub fn validate_one_round_poll(vote: &VoteWeb) -> (r: Result<(), MyError>)
    ensures
        r == single_winner_check(vote.polls.one_round, ValidationError::OneRoundValue),
{
    let v = vote.polls.one_round;
    if v < -1 || v >= CANDIDATE_COUNT as i32 {
        return Err(MyError::ValidationError(ValidationError::OneRoundValue));
    }
    Ok(())
}

/// The divide ballot must give each candidate an entry and spend exactly the budget.
pub fn validate_divide_poll(vote: &VoteWeb) -> (r: Result<(), MyError>)
    ensures
        r == divide_check(vote.polls.divide@),
{
    if vote.polls.divide.len() != CANDIDATE_COUNT {
        return Err(MyError::ValidationError(ValidationError::DivideLength));
    }
    let sum = sum_values(&vote.polls.divide);
    if sum != DIVIDE_BUDGET as i64 {
        return Err(MyError::ValidationError(ValidationError::DivideSum));
    }
    Ok(())
}

/// The D21 ballot must hold values in `{-1, 0, 1}` and meet the cardinality rule.
pub fn validate_d21_poll(vote: &VoteWeb) -> (r: Result<(), MyError>)
    ensures
        r == d21_check(vote.polls.d21@),
{
    let d21 = &vote.polls.d21;
    if d21.len() != CANDIDATE_COUNT {
        return Err(MyError::ValidationError(ValidationError::D21Length));
    }
    if !all_values_within(d21, -1, 1) {
        return Err(MyError::ValidationError(ValidationError::D21Values));
    }
    let positive = count_positive_values(d21);
    if positive == 0 {
        return Err(MyError::ValidationError(ValidationError::D21NoPositive));
    }
    if positive > 3 {
        return Err(MyError::ValidationError(ValidationError::D21TooManyPositive));
    }
    let negative = count_negative_values(d21);
    if negative > 1 || (positive < 2 && negative > 0) {
        return Err(MyError::ValidationError(ValidationError::D21TooManyNegative));
    }
    Ok(())
}

fn validate_levels(
    values: &Vec<i32>,
    lo: i32,
    hi: i32,
    length_error: ValidationError,
    value_error: ValidationError,
    empty_error: ValidationError,
) -> (r: Result<(), MyError>)
    ensures
        r == levels_check(values@, lo as int, hi as int, length_error, value_error, empty_error),
{
    if values.len() != CANDIDATE_COUNT {
        return Err(MyError::ValidationError(length_error));
    }
    if !all_values_within(values, lo, hi) {
        return Err(MyError::ValidationError(value_error));
    }
    if count_positive_values(values) == 0 {
        return Err(MyError::ValidationError(empty_error));
    }
    Ok(())
}

/// The doodle ballot must hold levels in `{0, 1, 2}`, at least one of them positive.
pub fn validate_doodle_poll(vote: &VoteWeb) -> (r: Result<(), MyError>)
    ensures
        r == doodle_check(vote.polls.doodle@),
{
    validate_levels(
        &vote.polls.doodle,
        0,
        2,
        ValidationError::DoodleLength,
        ValidationError::DoodleValues,
        ValidationError::DoodleNoPositive,
    )
}

/// The order poll must rank every candidate exactly once.
pub fn validate_order_poll(vote: &VoteWeb) -> (r: Result<(), MyError>)
    ensures
        r == permutation_check(vote.polls.order@, ValidationError::OrderPollLength, ValidationError::OrderPollNotPermutation),
{
    if vote.polls.order.len() != CANDIDATE_COUNT {
        return Err(MyError::ValidationError(ValidationError::OrderPollLength));
    }
    if !is_permutation_of_slots(&vote.polls.order, CANDIDATE_COUNT) {
        return Err(MyError::ValidationError(ValidationError::OrderPollNotPermutation));
    }
    Ok(())
}

/// The star ballot must hold scores in `[0, 100]`, at least one of them positive.
pub fn validate_star_poll(vote: &VoteWeb) -> (r: Result<(), MyError>)
    ensures
        r == star_check(vote.polls.star@),
{
    validate_levels(
        &vote.polls.star,
        0,
        100,
        ValidationError::StarLength,
        ValidationError::StarValues,
        ValidationError::StarNoPositive,
    )
}

/// Checks a whole submission and reports the first rule that it breaks; the
/// nonce chain may be empty.
pub fn validate_vote(vote: &VoteWeb) -> (r: Result<(), MyError>)
    ensures
        r == vote_check(vote@, 0),
{
    validate_vote_with_min_rounds(vote, 0)
}

/// Checks a whole submission, asking for at least `min_rounds` links of
/// proof of work, and reports the first rule that it breaks.
pub fn validate_vote_with_min_rounds(vote: &VoteWeb, min_rounds: usize) -> (r: Result<(), MyError>)
    ensures
        r == vote_check(vote@, min_rounds as nat),
{
    let r = validate_uuid(vote);
    if r.is_err() {
        return r;
    }
    let r = validate_nonce_rounds(vote, min_rounds);
    if r.is_err() {
        return r;
    }
    let r = validate_order(vote);
    if r.is_err() {
        return r;
    }
    let r = validate_one_round_poll(vote);
    if r.is_err() {
        return r;
    }
    let r = validate_two_round_poll(vote);
    if r.is_err() {
        return r;
    }
    let r = validate_divide_poll(vote);
    if r.is_err() {
        return r;
    }
    let r = validate_d21_poll(vote);
    if r.is_err() {
        return r;
    }
    let r = validate_doodle_poll(vote);
    if r.is_err() {
        return r;
    }
    let r = validate_order_poll(vote);
    if r.is_err() {
        return r;
    }
    validate_star_poll(vote)
}


/// A submission whose candidate order is not a permutation of the candidate
/// slots is rejected, and the order check names the candidate order.
pub proof fn lemma_non_permutation_rejected(v: VoteView, min_rounds: nat)
    requires
        !is_permutation(v.order, CANDIDATE_COUNT as nat),
    ensures
        vote_check(v, min_rounds) is Err,
        permutation_check(v.order, ValidationError::OrderLength, ValidationError::OrderNotPermutation)
            == invalid(ValidationError::OrderLength) || permutation_check(
            v.order,
            ValidationError::OrderLength,
            ValidationError::OrderNotPermutation,
        ) == invalid(ValidationError::OrderNotPermutation),
{
}

/// A D21 ballot of the right shape is accepted exactly when its counts of
/// positive and negative votes meet the cardinality rule, wherever the votes stand.
pub proof fn lemma_d21_accepts_iff_counts(s: Seq<i32>)
    requires
        s.len() == CANDIDATE_COUNT,
        all_within(s, -1, 1),
    ensures
        d21_check(s) is Ok <==> d21_counts_ok(count_positive(s), count_negative(s)),
{
}

/// A divide ballot is accepted exactly when it holds one entry per candidate
/// and its entries add up to the budget.
pub proof fn lemma_divide_accepts_iff_budget(s: Seq<i32>)
    ensures
        divide_check(s) is Ok <==> (s.len() == CANDIDATE_COUNT && sum_of(s) == DIVIDE_BUDGET),
{
}


proof fn lemma_counts_remove(s: Seq<i32>, j: int)
    requires
        0 <= j < s.len(),
    ensures
        count_positive(s) == count_positive(s.remove(j)) + if s[j] > 0 { 1nat } else { 0nat },
        count_negative(s) == count_negative(s.remove(j)) + if s[j] < 0 { 1nat } else { 0nat },
    decreases s.len(),
{
    if j == s.len() - 1 {
        assert(s.remove(j) =~= s.drop_last());
    } else {
        lemma_counts_remove(s.drop_last(), j);
        assert(s.remove(j).drop_last() =~= s.drop_last().remove(j));
        assert(s.remove(j).last() == s.last());
    }
}

proof fn lemma_counts_of_rearrangement(s: Seq<i32>, t: Seq<i32>)
    requires
        s.to_multiset() == t.to_multiset(),
    ensures
        count_positive(s) == count_positive(t),
        count_negative(s) == count_negative(t),
    decreases s.len(),
{
    broadcast use vstd::seq_lib::group_to_multiset_ensures;

    vstd::seq_lib::to_multiset_len(s);
    vstd::seq_lib::to_multiset_len(t);
    if s.len() == 0 {
        assert(t.len() == 0);
        assert(t =~= s);
    } else {
        let last = s.len() - 1;
        let x = s[last];
        assert(s.contains(x));
        assert(s.to_multiset().count(x) > 0);
        assert(t.to_multiset().count(x) > 0);
        assert(t.contains(x));
        let j = choose|j: int| 0 <= j < t.len() && t[j] == x;
        assert(s.remove(last) =~= s.drop_last());
        assert(s.remove(last).to_multiset() == s.to_multiset().remove(x));
        assert(t.remove(j).to_multiset() == t.to_multiset().remove(x));
        lemma_counts_of_rearrangement(s.drop_last(), t.remove(j));
        lemma_counts_remove(s, last);
        lemma_counts_remove(t, j);
    }
}

/// The verdict on a D21 ballot does not depend on which slots hold its votes:
/// a ballot with the same values in another arrangement gets the same verdict.
pub proof fn lemma_d21_verdict_ignores_slot_order(s: Seq<i32>, t: Seq<i32>)
    requires
        s.to_multiset() == t.to_multiset(),
    ensures
        d21_check(s) == d21_check(t),
{
    broadcast use vstd::seq_lib::group_to_multiset_ensures;

    lemma_counts_of_rearrangement(s, t);
    vstd::seq_lib::to_multiset_len(s);
    vstd::seq_lib::to_multiset_len(t);
    assert(s.len() == t.len());
    assert(all_within(s, -1, 1) == all_within(t, -1, 1)) by {
        if all_within(s, -1, 1) {
            assert forall|i: int| 0 <= i < t.len() implies -1 <= #[trigger] t[i] <= 1 by {
                assert(t.contains(t[i]));
                assert(t.to_multiset().count(t[i]) > 0);
                assert(s.to_multiset().count(t[i]) > 0);
                assert(s.contains(t[i]));
            }
        }
        if all_within(t, -1, 1) {
            assert forall|i: int| 0 <= i < s.len() implies -1 <= #[trigger] s[i] <= 1 by {
                assert(s.contains(s[i]));
                assert(s.to_multiset().count(s[i]) > 0);
                assert(t.to_multiset().count(s[i]) > 0);
                assert(t.contains(s[i]));
            }
        }
    }
}

} // verus!
