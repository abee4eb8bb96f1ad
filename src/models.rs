//! A submission in its compact form and as a flat storage row.

use vstd::prelude::*;
use crate::text::texts;

verus! {

/// The ballots of one submission, one per poll method.
pub struct PollsWeb {
    /// Chosen slot in the two-round poll, or -1 to abstain.
    pub two_round: i32,
    /// Chosen slot in the one-round poll, or -1 to abstain.
    pub one_round: i32,
    /// Points given to each slot out of the budget.
    pub divide: Vec<i32>,
    /// A vote in `{-1, 0, 1}` for each slot.
    pub d21: Vec<i32>,
    /// An approval level in `{0, 1, 2}` for each slot.
    pub doodle: Vec<i32>,
    /// A ranking of all slots.
    pub order: Vec<i32>,
    /// A score in `[0, 100]` for each slot.
    pub star: Vec<i32>,
}

/// One submission as it arrives from a voter.
pub struct VoteWeb {
    pub uuid: String,
    /// The proof-of-work nonces, in chain order.
    pub nonces: Vec<String>,
    /// The voter's ranking of all candidates.
    pub order: Vec<i32>,
    pub polls: PollsWeb,
}

/// One submission as a flat, fixed-width storage row: every poll method takes
/// one column per candidate slot.
pub struct VoteDB {
    pub id: String,
    /// The nonces joined with commas.
    pub nonces: String,
    /// The candidate order as decimal integers joined with commas.
    pub permutation: String,
    /// The number of entries of the candidate order.
    pub strength: i32,
    /// The anonymised origin of the submission.
    pub ip_hash: String,
    /// One flag per slot, set at the chosen slot.
    pub two_round: Vec<i32>,
    /// One flag per slot, set at the chosen slot.
    pub one_round: Vec<i32>,
    pub divide: Vec<i32>,
    pub d21: Vec<i32>,
    pub doodle: Vec<i32>,
    pub order: Vec<i32>,
    pub star: Vec<i32>,
}

/// The ballots as mathematical values.
pub struct PollsView {
    pub two_round: i32,
    pub one_round: i32,
    pub divide: Seq<i32>,
    pub d21: Seq<i32>,
    pub doodle: Seq<i32>,
    pub order: Seq<i32>,
    pub star: Seq<i32>,
}

/// A submission as mathematical values.
pub struct VoteView {
    pub uuid: Seq<char>,
    pub nonces: Seq<Seq<char>>,
    pub order: Seq<i32>,
    pub polls: PollsView,
}

/// A storage row as mathematical values.
pub struct RowView {
    pub id: Seq<char>,
    pub nonces: Seq<char>,
    pub permutation: Seq<char>,
    pub strength: i32,
    pub ip_hash: Seq<char>,
    pub two_round: Seq<i32>,
    pub one_round: Seq<i32>,
    pub divide: Seq<i32>,
    pub d21: Seq<i32>,
    pub doodle: Seq<i32>,
    pub order: Seq<i32>,
    pub star: Seq<i32>,
}

impl View for PollsWeb {
    type V = PollsView;

    open spec fn view(&self) -> PollsView {
        PollsView {
            two_round: self.two_round,
            one_round: self.one_round,
            divide: self.divide@,
            d21: self.d21@,
            doodle: self.doodle@,
            order: self.order@,
            star: self.star@,
        }
    }
}

impl View for VoteWeb {
    type V = VoteView;

    open spec fn view(&self) -> VoteView {
        VoteView { uuid: self.uuid@, nonces: texts(self.nonces@), order: self.order@, polls: self.polls@ }
    }
}

impl View for VoteDB {
    type V = RowView;

    open spec fn view(&self) -> RowView {
        RowView {
            id: self.id@,
            nonces: self.nonces@,
            permutation: self.permutation@,
            strength: self.strength,
            ip_hash: self.ip_hash@,
            two_round: self.two_round@,
            one_round: self.one_round@,
            divide: self.divide@,
            d21: self.d21@,
            doodle: self.doodle@,
            order: self.order@,
            star: self.star@,
        }
    }
}

} // verus!
