//! Properties of the protocol that relate several operations, proved from
//! the operations' contracts.
use vstd::prelude::*;

use crate::program::{cancelled, engaged, escrow_released, funded, initiated, live_at, live_pair, paid, SwapProgram};
use crate::vault::{escrowed_of, lemma_emptied_holds_nothing, units_of};
use crate::search::{lemma_first_index, lemma_first_index_same};
use crate::state::{SwapStage, UserEnum};

verus! {

/// No two open swap records of a well-formed state share an ordered pair of
/// participants.
pub proof fn one_open_swap_per_pair(p: SwapProgram, i: int, j: int)
    requires
        p.wf(),
        0 <= i < p.swaps@.len(),
        0 <= j < p.swaps@.len(),
        i != j,
        p.swaps@[i].stage.is_live(),
        p.swaps@[j].stage.is_live(),
    ensures
        !(p.swaps@[i].offeror@ == p.swaps@[j].offeror@ && p.swaps@[i].offeree@ == p.swaps@[j].offeree@),
{
    assert(p.swaps@[i].stage.is_live() && p.swaps@[j].stage.is_live());
}

/// A cancellation hands the offeror exactly what the vaults held of every
/// asset type and leaves every vault empty and closed.
pub proof fn cancel_returns_escrow(pre: SwapProgram, post: SwapProgram, swap: Seq<u8>, offeror: Seq<u8>, offeree: Seq<u8>)
    requires
        cancelled(pre, post, swap, offeror, offeree),
    ensures
        ({
            let i = pre.live_index(swap);
            let before = pre.swaps@[i].escrows@;
            let after = post.swaps@[i].escrows@;
            &&& forall|m: Seq<u8>| #[trigger] post.ledger.balance(offeror, m)
                == pre.ledger.balance(offeror, m) + escrowed_of(before, m)
            &&& after.len() == before.len()
            &&& forall|j: int| 0 <= j < after.len() ==> (#[trigger] after[j]).amount == 0 && after[j].closed
            &&& forall|m: Seq<u8>| #[trigger] escrowed_of(after, m) == 0
            &&& post.swaps@[i].stage == SwapStage::Cancelled
        }),
{
    let i = pre.live_index(swap);
    assert forall|m: Seq<u8>| #[trigger] escrowed_of(post.swaps@[i].escrows@, m) == 0 by {
        lemma_emptied_holds_nothing(pre.swaps@[i].escrows@, post.swaps@[i].escrows@, m);
    }
    assert forall|j: int| 0 <= j < post.swaps@[i].escrows@.len() implies
        (#[trigger] post.swaps@[i].escrows@[j]).amount == 0 && post.swaps@[i].escrows@[j].closed by {
    }
}

/// The two legs of an acceptance, run one after the other, leave the
/// offeror with one more unit of every asset type the offeree committed,
/// the offeree with everything the vaults held (less what it paid), and
/// both participants disengaged.
pub proof fn accept_legs_swap_assets(
    s0: SwapProgram,
    s1: SwapProgram,
    s2: SwapProgram,
    swap: Seq<u8>,
    offeror: Seq<u8>,
    offeree: Seq<u8>,
)
    requires
        s0.wf(),
        escrow_released(s0, s1, swap, offeror, offeree),
        paid(s1, s2, swap, offeror, offeree),
    ensures
        ({
            let rec = s0.swaps@[s0.live_index(swap)];
            &&& forall|m: Seq<u8>| #[trigger] s2.ledger.balance(offeror, m)
                == s0.ledger.balance(offeror, m) + units_of(rec.mints_offeree@, m)
            &&& forall|m: Seq<u8>| #[trigger] s2.ledger.balance(offeree, m) + units_of(rec.mints_offeree@, m)
                == s0.ledger.balance(offeree, m) + escrowed_of(rec.escrows@, m)
            &&& s2.role(offeror) == Some(UserEnum::NoRole)
            &&& s2.role(offeree) == Some(UserEnum::NoRole)
            &&& s2.swaps@[s0.live_index(swap)].stage == SwapStage::Accepted
        }),
{
    let i = s0.live_index(swap);
    lemma_first_index(s0.swaps@, live_at(swap));
    assert(s0.swaps@[i].wf(s0.program_id@));
    assert(engaged(s0.swaps@[i]));
    assert forall|j: int| 0 <= j < s0.swaps@.len() implies live_at(swap)(#[trigger] s0.swaps@[j])
        == live_at(swap)(s1.swaps@[j]) by {
        if j != i {
            assert(s1.swaps@[j] == s0.swaps@[j]);
        }
    }
    lemma_first_index_same(s0.swaps@, s1.swaps@, live_at(swap));
    assert(s1.live_index(swap) == i);
    let rec = s0.swaps@[i];
    assert forall|m: Seq<u8>| #[trigger] s2.ledger.balance(offeror, m)
        == s0.ledger.balance(offeror, m) + units_of(rec.mints_offeree@, m) by {
        assert(s1.ledger.balance(offeror, m) == s0.ledger.balance(offeror, m));
        assert(s2.ledger.balance(offeror, m) == s1.ledger.balance(offeror, m) + units_of(rec.mints_offeree@, m));
    }
    assert forall|m: Seq<u8>| #[trigger] s2.ledger.balance(offeree, m) + units_of(rec.mints_offeree@, m)
        == s0.ledger.balance(offeree, m) + escrowed_of(rec.escrows@, m) by {
        assert(s1.ledger.balance(offeree, m) == s0.ledger.balance(offeree, m) + escrowed_of(rec.escrows@, m));
        assert(s2.ledger.balance(offeree, m) + units_of(rec.mints_offeree@, m) == s1.ledger.balance(offeree, m));
    }
}

/// Escrowing an asset into a swap, initiating it and then cancelling it
/// gives the offeror back its balance of that asset from before the escrow.
pub proof fn fund_then_cancel_restores(
    s0: SwapProgram,
    s1: SwapProgram,
    s2: SwapProgram,
    s3: SwapProgram,
    swap: Seq<u8>,
    offeror: Seq<u8>,
    offeree: Seq<u8>,
    mint: Seq<u8>,
    amount: u64,
)
    requires
        s0.wf(),
        s1.wf(),
        s2.wf(),
        funded(s0, s1, offeror, offeree, mint, amount),
        initiated(s1, s2, offeror, offeree),
        cancelled(s2, s3, swap, offeror, offeree),
    ensures
        s3.ledger.balance(offeror, mint) == s0.ledger.balance(offeror, mint),
{
    let i = s0.live_pair_index(offeror, offeree);
    let i1 = s1.live_pair_index(offeror, offeree);
    let j = s2.live_index(swap);
    lemma_first_index(s0.swaps@, live_pair(offeror, offeree));
    lemma_first_index(s1.swaps@, live_pair(offeror, offeree));
    lemma_first_index(s2.swaps@, live_at(swap));
    assert(live_pair(offeror, offeree)(s1.swaps@[i]));
    if i1 != i {
        assert(s1.swaps@[i1].stage.is_live() && s1.swaps@[i].stage.is_live());
    }
    assert(i1 == i);
    assert(s2.swaps@[i].stage.is_live());
    assert(s2.swaps@[j].stage.is_live());
    if i != j {
        assert(s2.swaps@[i].stage.is_live() && s2.swaps@[j].stage.is_live());
    }
    assert(i == j);
    assert(s2.swaps@[i].escrows == s1.swaps@[i].escrows);
    assert(escrowed_of(s1.swaps@[i].escrows@, mint) == amount);
}

} // verus!
