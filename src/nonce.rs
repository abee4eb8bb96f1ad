//! The proof-of-work nonce chain that gates submissions.

use vstd::prelude::*;
use vstd::string::StrSliceExecFns;
use vstd::string::StringExecFns;
use crate::digest::{sha256, sha256_hex};
use crate::text::texts;

verus! {

/// A digest passes a link of the chain when it opens with three sevens.
pub open spec fn has_work_prefix(d: Seq<char>) -> bool {
    d.len() >= 3 && d[0] == '7' && d[1] == '7' && d[2] == '7'
}

/// The running value after hashing in each nonce of `nonces`, starting from `start`.
pub open spec fn chain_digest(start: Seq<char>, nonces: Seq<Seq<char>>) -> Seq<char>
    decreases nonces.len(),
{
    if nonces.len() == 0 {
        start
    } else {
        sha256_hex(chain_digest(start, nonces.drop_last()) + nonces.last())
    }
}

/// Every link of the chain from `start` through `nonces` carries the prefix.
pub open spec fn chain_holds(start: Seq<char>, nonces: Seq<Seq<char>>) -> bool
    decreases nonces.len(),
{
    nonces.len() == 0 || (chain_holds(start, nonces.drop_last()) && has_work_prefix(
        chain_digest(start, nonces),
    ))
}

/// Whether `digest` opens with the prefix that a link of the chain must carry.
pub fn has_required_prefix(digest: &str) -> (r: bool)
    ensures
        r == has_work_prefix(digest@),
{
    let len = digest.unicode_len();
    if len < 3 {
        return false;
    }
    digest.get_char(0) == '7' && digest.get_char(1) == '7' && digest.get_char(2) == '7'
}

proof fn lemma_chain_holds_prefix(start: Seq<char>, nonces: Seq<Seq<char>>, k: int)
    requires
        0 <= k <= nonces.len(),
        chain_holds(start, nonces),
    ensures
        chain_holds(start, nonces.take(k)),
    decreases nonces.len(),
{
    if k == nonces.len() {
        assert(nonces.take(k) =~= nonces);
    } else {
        lemma_chain_holds_prefix(start, nonces.drop_last(), k);
        assert(nonces.drop_last().take(k) =~= nonces.take(k));
    }
}

/// Whether the nonces form a valid chain anchored at `id` followed by `tag`,
/// with at least `min_rounds` links. The running value starts as `id` then
/// `tag`; each nonce is appended and the result hashed, and every hash must
/// carry the prefix.
pub fn verify_nonce_chain(id: &str, tag: &str, nonces: &Vec<String>, min_rounds: usize) -> (r: bool)
    ensures
        r == (nonces@.len() >= min_rounds && chain_holds(id@ + tag@, texts(nonces@))),
{
    if nonces.len() < min_rounds {
        return false;
    }
    let ghost start = id@ + tag@;
    let ghost all = texts(nonces@);
    let mut current = String::from_str(id);
    current.append(tag);
    let mut i: usize = 0;
    proof {
        assert(all.take(0) =~= Seq::<Seq<char>>::empty());
    }
    while i < nonces.len()
        invariant
            i <= nonces@.len(),
            all == texts(nonces@),
            start == id@ + tag@,
            current@ == chain_digest(start, all.take(i as int)),
            chain_holds(start, all.take(i as int)),
        decreases nonces@.len() - i,
    {
        let mut input = current.clone();
        input.append(nonces[i].as_str());
        let next = sha256(input.as_str());
        proof {
            let t = all.take(i + 1);
            assert(t.drop_last() =~= all.take(i as int));
            assert(t.last() == nonces@[i as int]@);
            assert(next@ == chain_digest(start, t));
        }
        if !has_required_prefix(next.as_str()) {
            proof {
                let t = all.take(i + 1);
                assert(t.len() > 0);
                assert(!has_work_prefix(chain_digest(start, t)));
                assert(!chain_holds(start, t));
                if chain_holds(start, all) {
                    lemma_chain_holds_prefix(start, all, i + 1);
                }
            }
            return false;
        }
        current = next;
        i = i + 1;
    }
    proof {
        assert(all.take(nonces@.len() as int) =~= all);
    }
    true
}


/// A chain is accepted exactly when the running value after each of its
/// prefixes (one nonce, two nonces, and so on up to all of them) carries the
/// required prefix.
pub proof fn lemma_chain_holds_iff_every_link(start: Seq<char>, nonces: Seq<Seq<char>>)
    ensures
        chain_holds(start, nonces) <==> forall|k: int|
            1 <= k <= nonces.len() ==> has_work_prefix(#[trigger] chain_digest(start, nonces.take(k))),
    decreases nonces.len(),
{
    if nonces.len() > 0 {
        let init = nonces.drop_last();
        lemma_chain_holds_iff_every_link(start, init);
        assert(nonces.take(nonces.len() as int) =~= nonces);
        assert forall|k: int| 1 <= k <= init.len() implies init.take(k) == nonces.take(k) by {
            assert(init.take(k) =~= nonces.take(k));
        }
        if chain_holds(start, nonces) {
            assert forall|k: int| 1 <= k <= nonces.len() implies has_work_prefix(
                #[trigger] chain_digest(start, nonces.take(k)),
            ) by {
                if k < nonces.len() {
                    assert(init.take(k) == nonces.take(k));
                }
            }
        }
        if forall|k: int|
            1 <= k <= nonces.len() ==> has_work_prefix(#[trigger] chain_digest(start, nonces.take(k))) {
            assert forall|k: int| 1 <= k <= init.len() implies has_work_prefix(
                #[trigger] chain_digest(start, init.take(k)),
            ) by {
                assert(init.take(k) == nonces.take(k));
                assert(has_work_prefix(chain_digest(start, nonces.take(k))));
            }
            assert(has_work_prefix(chain_digest(start, nonces.take(nonces.len() as int))));
        }
    }
}

} // verus!
