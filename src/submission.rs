//! Validation then encoding on write; row lookup then decoding on read.

use vstd::prelude::*;
use vstd::string::StringExecFns;
use crate::codec::{decode_spec, decode_vote, encode_spec, encode_vote, row_well_formed};
use crate::digest::{sha256, sha256_hex};
use crate::errors::MyError;
use crate::models::{VoteDB, VoteWeb};
use crate::validations::{validate_vote_with_min_rounds, vote_check};

verus! {

/// The anonymised form of an origin: the digest of the origin followed by the
/// deployment's secret salt. The raw origin is never stored.
pub fn anonymize_origin(origin: &str, salt: &str) -> (r: String)
    ensures
        r@ == sha256_hex(origin@ + salt@),
{
    let mut input = String::from_str(origin);
    input.append(salt);
    sha256(input.as_str())
}

/// The row to store for a submission from `origin`: the submission is
/// validated first, with at least `min_rounds` links of proof of work asked
/// for, and a rejected one yields its first broken rule and no row.
pub fn prepare_vote(vote: &VoteWeb, origin: &str, salt: &str, min_rounds: usize) -> (r: Result<VoteDB, MyError>)
    ensures
        r is Ok <==> vote_check(vote@, min_rounds as nat) is Ok,
        r matches Ok(row) ==> row@ == encode_spec(vote@, sha256_hex(origin@ + salt@)),
        r matches Err(e) ==> vote_check(vote@, min_rounds as nat) == Err::<(), MyError>(e),
{
    match validate_vote_with_min_rounds(vote, min_rounds) {
        Err(e) => Err(e),
        Ok(()) => {
            let ip_hash = anonymize_origin(origin, salt);
            Ok(encode_vote(vote, ip_hash.as_str()))
        },
    }
}

/// The submission held by the rows that a lookup returned: `NotFound` when
/// there is none, otherwise the decoding of the last row.
pub fn vote_from_rows(rows: Vec<VoteDB>) -> (r: Result<VoteWeb, MyError>)
    ensures
        rows@.len() == 0 ==> r == Err::<VoteWeb, MyError>(MyError::NotFound),
        rows@.len() > 0 ==> (r is Ok <==> row_well_formed(rows@.last()@)),
        rows@.len() > 0 ==> (r matches Ok(v) ==> v@ == decode_spec(rows@.last()@)),
        rows@.len() > 0 ==> (r matches Err(e) ==> e == MyError::MalformedRow),
{
    let mut rows = rows;
    match rows.pop() {
        None => Err(MyError::NotFound),
        Some(row) => decode_vote(&row),
    }
}

} // verus!
