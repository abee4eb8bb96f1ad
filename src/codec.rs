//! Lossless mapping between a submission and its flat storage row.

use vstd::prelude::*;
use vstd::string::StrSliceExecFns;
use vstd::string::StringExecFns;
use crate::errors::MyError;
use crate::models::{PollsView, PollsWeb, RowView, VoteDB, VoteView, VoteWeb};
use crate::text::{
    decimal_of, format_decimal, join_commas, join_with_commas, parse_decimal, parse_i32,
    split_at_commas, split_commas, texts,
};
use crate::text::{has_no_comma, is_decimal_text, lemma_parse_decimal_of, lemma_split_join};
use crate::validations::{vote_check, CANDIDATE_COUNT};

verus! {

/// The flags of a single-winner ballot: 1 at the chosen slot, 0 elsewhere;
/// all 0 for the abstention.
pub open spec fn one_hot(choice: i32) -> Seq<i32> {
    Seq::new(CANDIDATE_COUNT as nat, |k: int| if k == choice { 1i32 } else { 0i32 })
}

/// The index of the first positive flag, or -1 when none is positive.
pub open spec fn first_positive(flags: Seq<i32>) -> int
    decreases flags.len(),
{
    if flags.len() == 0 {
        -1
    } else {
        let earlier = first_positive(flags.drop_last());
        if earlier >= 0 {
            earlier
        } else if flags.last() > 0 {
            flags.len() - 1
        } else {
            -1
        }
    }
}

/// The decimal text of each value.
pub open spec fn decimal_texts(s: Seq<i32>) -> Seq<Seq<char>> {
    s.map_values(|x: i32| decimal_of(x as int))
}

/// The values that the tokens denote, in order, skipping tokens that are not
/// base-10 `i32` text.
pub open spec fn parse_all(tokens: Seq<Seq<char>>) -> Seq<i32>
    decreases tokens.len(),
{
    if tokens.len() == 0 {
        Seq::empty()
    } else {
        let rest = parse_all(tokens.drop_last());
        match parse_i32(tokens.last()) {
            Some(x) => rest.push(x),
            None => rest,
        }
    }
}

/// The columns of a multi-value ballot: its first entry for each slot.
pub open spec fn columns_of(s: Seq<i32>) -> Seq<i32> {
    s.take(CANDIDATE_COUNT as int)
}

/// The storage row of a submission, with `ip_hash` as its anonymised origin.
pub open spec fn encode_spec(v: VoteView, ip_hash: Seq<char>) -> RowView {
    RowView {
        id: v.uuid,
        nonces: join_commas(v.nonces),
        permutation: join_commas(decimal_texts(v.order)),
        strength: v.order.len() as i32,
        ip_hash: ip_hash,
        two_round: one_hot(v.polls.two_round),
        one_round: one_hot(v.polls.one_round),
        divide: columns_of(v.polls.divide),
        d21: columns_of(v.polls.d21),
        doodle: columns_of(v.polls.doodle),
        order: columns_of(v.polls.order),
        star: columns_of(v.polls.star),
    }
}

/// Every poll method of the row has one column per candidate slot.
pub open spec fn row_well_formed(r: RowView) -> bool {
    &&& r.two_round.len() == CANDIDATE_COUNT
    &&& r.one_round.len() == CANDIDATE_COUNT
    &&& r.divide.len() == CANDIDATE_COUNT
    &&& r.d21.len() == CANDIDATE_COUNT
    &&& r.doodle.len() == CANDIDATE_COUNT
    &&& r.order.len() == CANDIDATE_COUNT
    &&& r.star.len() == CANDIDATE_COUNT
}

/// The nonces stored as `text`: none for the empty text, otherwise the pieces
/// between commas.
pub open spec fn nonces_from_text(text: Seq<char>) -> Seq<Seq<char>> {
    if text.len() == 0 {
        Seq::empty()
    } else {
        split_commas(text)
    }
}

/// The submission that a well-formed row holds. Single-winner flags are read
/// leniently (the first positive flag wins), and order tokens that are not
/// integers are skipped.
pub open spec fn decode_spec(r: RowView) -> VoteView {
    VoteView {
        uuid: r.id,
        nonces: nonces_from_text(r.nonces),
        order: parse_all(split_commas(r.permutation)),
        polls: PollsView {
            two_round: first_positive(r.two_round) as i32,
            one_round: first_positive(r.one_round) as i32,
            divide: r.divide,
            d21: r.d21,
            doodle: r.doodle,
            order: r.order,
            star: r.star,
        },
    }
}

/// The flag stored at slot `index` for a single-winner choice `value`.
pub fn index_to_points(value: i32, index: i32) -> (r: i32)
    ensures
        r == (if index == value { 1i32 } else { 0i32 }),
{
    if index == value {
        1
    } else {
        0
    }
}

fn encode_single_winner(choice: i32) -> (r: Vec<i32>)
    ensures
        r@ == one_hot(choice),
{
    let mut flags: Vec<i32> = Vec::new();
    let mut k: usize = 0;
    while k < CANDIDATE_COUNT
        invariant
            k <= CANDIDATE_COUNT,
            flags@ == one_hot(choice).take(k as int),
        decreases CANDIDATE_COUNT - k,
    {
        flags.push(index_to_points(choice, k as i32));
        proof {
            assert(flags@ =~= one_hot(choice).take(k + 1));
        }
        k = k + 1;
    }
    proof {
        assert(one_hot(choice).take(CANDIDATE_COUNT as int) =~= one_hot(choice));
    }
    flags
}

proof fn lemma_first_positive_found(s: Seq<i32>, k: int)
    requires
        0 <= k <= s.len(),
        first_positive(s.take(k)) >= 0,
    ensures
        first_positive(s) == first_positive(s.take(k)),
    decreases s.len(),
{
    if k == s.len() {
        assert(s.take(k) =~= s);
    } else {
        assert(s.drop_last().take(k) =~= s.take(k));
        lemma_first_positive_found(s.drop_last(), k);
    }
}

fn decode_single_winner(flags: &Vec<i32>) -> (r: i32)
    requires
        flags@.len() == CANDIDATE_COUNT,
    ensures
        r == first_positive(flags@),
{
    let mut k: usize = 0;
    proof {
        assert(flags@.take(0) =~= Seq::<i32>::empty());
    }
    while k < flags.len()
        invariant
            k <= flags@.len(),
            flags@.len() == CANDIDATE_COUNT,
            first_positive(flags@.take(k as int)) == -1,
        decreases flags@.len() - k,
    {
        proof {
            assert(flags@.take(k + 1).drop_last() =~= flags@.take(k as int));
        }
        if flags[k] > 0 {
            proof {
                lemma_first_positive_found(flags@, k + 1);
            }
            return k as i32;
        }
        k = k + 1;
    }
    proof {
        assert(flags@.take(flags@.len() as int) =~= flags@);
    }
    -1
}

fn copy_columns(values: &Vec<i32>) -> (r: Vec<i32>)
    requires
        values@.len() >= CANDIDATE_COUNT,
    ensures
        r@ == columns_of(values@),
{
    let mut out: Vec<i32> = Vec::new();
    let mut k: usize = 0;
    while k < CANDIDATE_COUNT
        invariant
            k <= CANDIDATE_COUNT <= values@.len(),
            out@ == values@.take(k as int),
        decreases CANDIDATE_COUNT - k,
    {
        out.push(values[k]);
        proof {
            assert(out@ =~= values@.take(k + 1));
        }
        k = k + 1;
    }
    out
}

fn copy_values(values: &Vec<i32>) -> (r: Vec<i32>)
    ensures
        r@ == values@,
{
    let mut out: Vec<i32> = Vec::new();
    let mut k: usize = 0;
    while k < values.len()
        invariant
            k <= values@.len(),
            out@ == values@.take(k as int),
        decreases values@.len() - k,
    {
        out.push(values[k]);
        proof {
            assert(out@ =~= values@.take(k + 1));
        }
        k = k + 1;
    }
    proof {
        assert(values@.take(values@.len() as int) =~= values@);
    }
    out
}

/// The candidate order as decimal integers joined with commas.
pub fn format_order(order: &Vec<i32>) -> (r: String)
    ensures
        r@ == join_commas(decimal_texts(order@)),
{
    let mut parts: Vec<String> = Vec::new();
    let mut k: usize = 0;
    while k < order.len()
        invariant
            k <= order@.len(),
            texts(parts@) == decimal_texts(order@).take(k as int),
        decreases order@.len() - k,
    {
        let part = format_decimal(order[k]);
        let ghost before = parts@;
        parts.push(part);
        proof {
            assert(parts@ == before.push(part));
            assert(texts(parts@) =~= texts(before).push(part@));
            assert(texts(parts@) =~= decimal_texts(order@).take(k + 1));
        }
        k = k + 1;
    }
    proof {
        assert(decimal_texts(order@).take(order@.len() as int) =~= decimal_texts(order@));
    }
    join_with_commas(&parts)
}

/// The nonces stored as `text`: none for the empty text, otherwise the
/// pieces between commas.
pub fn parse_nonces(text: &str) -> (r: Vec<String>)
    ensures
        texts(r@) == nonces_from_text(text@),
{
    if text.unicode_len() == 0 {
        let none: Vec<String> = Vec::new();
        proof {
            assert(texts(none@) =~= Seq::<Seq<char>>::empty());
        }
        none
    } else {
        split_at_commas(text)
    }
}

/// The integers of a comma-separated candidate order, skipping every token
/// that is not a base-10 `i32`.
pub fn parse_order(text: &str) -> (r: Vec<i32>)
    ensures
        r@ == parse_all(split_commas(text@)),
{
    let tokens = split_at_commas(text);
    let ghost all = texts(tokens@);
    let mut out: Vec<i32> = Vec::new();
    let mut k: usize = 0;
    proof {
        assert(all.take(0) =~= Seq::<Seq<char>>::empty());
    }
    while k < tokens.len()
        invariant
            k <= tokens@.len(),
            all == texts(tokens@),
            out@ == parse_all(all.take(k as int)),
        decreases tokens@.len() - k,
    {
        let parsed = parse_decimal(tokens[k].as_str());
        proof {
            assert(all.take(k + 1).drop_last() =~= all.take(k as int));
            assert(all.take(k + 1).last() == tokens@[k as int]@);
        }
        match parsed {
            Some(x) => {
                out.push(x);
            },
            None => {},
        }
        k = k + 1;
    }
    proof {
        assert(all.take(tokens@.len() as int) =~= all);
    }
    out
}


/// The storage row of `vote`, with `ip_hash` as its anonymised origin.
/// Single-winner choices become one flag per slot; multi-value ballots keep
/// their first entry for each slot; the nonces and the candidate order are
/// joined with commas.
pub fn encode_vote(vote: &VoteWeb, ip_hash: &str) -> (r: VoteDB)
    requires
        vote.polls.divide@.len() >= CANDIDATE_COUNT,
        vote.polls.d21@.len() >= CANDIDATE_COUNT,
        vote.polls.doodle@.len() >= CANDIDATE_COUNT,
        vote.polls.order@.len() >= CANDIDATE_COUNT,
        vote.polls.star@.len() >= CANDIDATE_COUNT,
        vote.order@.len() <= i32::MAX,
    ensures
        r@ == encode_spec(vote@, ip_hash@),
        row_well_formed(r@),
{
    VoteDB {
        id: vote.uuid.clone(),
        nonces: join_with_commas(&vote.nonces),
        permutation: format_order(&vote.order),
        strength: vote.order.len() as i32,
        ip_hash: String::from_str(ip_hash),
        two_round: encode_single_winner(vote.polls.two_round),
        one_round: encode_single_winner(vote.polls.one_round),
        divide: copy_columns(&vote.polls.divide),
        d21: copy_columns(&vote.polls.d21),
        doodle: copy_columns(&vote.polls.doodle),
        order: copy_columns(&vote.polls.order),
        star: copy_columns(&vote.polls.star),
    }
}

/// The submission that `row` holds, or `MalformedRow` when some poll method
/// does not have exactly one column per candidate slot.
pub fn decode_vote(row: &VoteDB) -> (r: Result<VoteWeb, MyError>)
    ensures
        r is Ok <==> row_well_formed(row@),
        r matches Ok(v) ==> v@ == decode_spec(row@),
        r matches Err(e) ==> e == MyError::MalformedRow,
{
    if row.two_round.len() != CANDIDATE_COUNT || row.one_round.len() != CANDIDATE_COUNT
        || row.divide.len() != CANDIDATE_COUNT || row.d21.len() != CANDIDATE_COUNT
        || row.doodle.len() != CANDIDATE_COUNT || row.order.len() != CANDIDATE_COUNT
        || row.star.len() != CANDIDATE_COUNT {
        return Err(MyError::MalformedRow);
    }
    let polls = PollsWeb {
        two_round: decode_single_winner(&row.two_round),
        one_round: decode_single_winner(&row.one_round),
        divide: copy_values(&row.divide),
        d21: copy_values(&row.d21),
        doodle: copy_values(&row.doodle),
        order: copy_values(&row.order),
        star: copy_values(&row.star),
    };
    let vote = VoteWeb {
        uuid: row.id.clone(),
        nonces: parse_nonces(row.nonces.as_str()),
        order: parse_order(row.permutation.as_str()),
        polls,
    };
    Ok(vote)
}


proof fn lemma_first_positive_one_hot(choice: i32, n: int)
    requires
        0 <= n <= CANDIDATE_COUNT,
    ensures
        first_positive(one_hot(choice).take(n)) == (if 0 <= choice < n { choice as int } else { -1 }),
    decreases n,
{
    let s = one_hot(choice).take(n);
    if n > 0 {
        lemma_first_positive_one_hot(choice, n - 1);
        assert(s.drop_last() =~= one_hot(choice).take(n - 1));
    }
}

proof fn lemma_parse_all_decimal_texts(s: Seq<i32>)
    ensures
        parse_all(decimal_texts(s)) == s,
    decreases s.len(),
{
    if s.len() > 0 {
        lemma_parse_all_decimal_texts(s.drop_last());
        assert(decimal_texts(s).drop_last() =~= decimal_texts(s.drop_last()));
        lemma_parse_decimal_of(s.last());
        assert(s.drop_last().push(s.last()) =~= s);
    } else {
        assert(parse_all(decimal_texts(s)) =~= s);
    }
}

proof fn lemma_order_round_trip(order: Seq<i32>)
    ensures
        parse_all(split_commas(join_commas(decimal_texts(order)))) == order,
{
    if order.len() == 0 {
        assert(decimal_texts(order) =~= Seq::<Seq<char>>::empty());
        let tokens = split_commas(join_commas(decimal_texts(order)));
        assert(tokens =~= seq![Seq::<char>::empty()]);
        assert(tokens.drop_last() =~= Seq::<Seq<char>>::empty());
        assert(!is_decimal_text(tokens.last()));
        assert(parse_i32(tokens.last()) is None);
        assert(parse_all(tokens.drop_last()) =~= Seq::<i32>::empty());
        assert(parse_all(tokens) =~= order);
    } else {
        let d = decimal_texts(order);
        assert forall|i: int| 0 <= i < d.len() implies has_no_comma(#[trigger] d[i]) by {
            lemma_parse_decimal_of(order[i]);
        }
        lemma_split_join(d);
        lemma_parse_all_decimal_texts(order);
    }
}

proof fn lemma_nonces_round_trip(nonces: Seq<Seq<char>>)
    requires
        nonces != seq![Seq::<char>::empty()],
        forall|i: int| 0 <= i < nonces.len() ==> has_no_comma(#[trigger] nonces[i]),
    ensures
        nonces_from_text(join_commas(nonces)) == nonces,
{
    if nonces.len() == 0 {
        assert(nonces_from_text(join_commas(nonces)) =~= nonces);
    } else {
        if nonces.len() == 1 {
            assert(nonces[0].len() > 0) by {
                if nonces[0].len() == 0 {
                    assert(nonces[0] =~= Seq::<char>::empty());
                    assert(nonces =~= seq![Seq::<char>::empty()]);
                }
            }
        }
        assert(join_commas(nonces).len() > 0);
        lemma_split_join(nonces);
    }
}

/// Storing a valid submission and reading the row back gives the same
/// submission, when no nonce holds a comma and the nonces are not a single
/// empty one (which is stored as no nonces).
pub proof fn lemma_decode_encode(v: VoteView, min_rounds: nat, ip_hash: Seq<char>)
    requires
        vote_check(v, min_rounds) is Ok,
        v.nonces != seq![Seq::<char>::empty()],
        forall|i: int| 0 <= i < v.nonces.len() ==> has_no_comma(#[trigger] v.nonces[i]),
    ensures
        row_well_formed(encode_spec(v, ip_hash)),
        decode_spec(encode_spec(v, ip_hash)) == v,
{
    let row = encode_spec(v, ip_hash);
    lemma_first_positive_one_hot(v.polls.two_round, CANDIDATE_COUNT as int);
    lemma_first_positive_one_hot(v.polls.one_round, CANDIDATE_COUNT as int);
    assert(one_hot(v.polls.two_round).take(CANDIDATE_COUNT as int) =~= one_hot(v.polls.two_round));
    assert(one_hot(v.polls.one_round).take(CANDIDATE_COUNT as int) =~= one_hot(v.polls.one_round));
    lemma_nonces_round_trip(v.nonces);
    lemma_order_round_trip(v.order);
    assert(columns_of(v.polls.divide) =~= v.polls.divide);
    assert(columns_of(v.polls.d21) =~= v.polls.d21);
    assert(columns_of(v.polls.doodle) =~= v.polls.doodle);
    assert(columns_of(v.polls.order) =~= v.polls.order);
    assert(columns_of(v.polls.star) =~= v.polls.star);
    assert(decode_spec(row).polls == v.polls);
}

} // verus!
