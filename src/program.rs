//! The swap protocol engine: the identity store, the swap record table and
//! the state machine that moves assets through vaults.
use vstd::prelude::*;

use crate::address::Address;
use crate::derive::{
    check_escrow_authority, check_swap_authority, escrow_seeds, find_escrow_address,
    derivable, find_swap_address, find_user_address, program_address, swap_seeds, user_seeds,
    with_bump,
};
use crate::identity::{counterparty_in, reset, role_in, set_role, user_is};
use crate::ledger::Ledger;
use crate::search::{first_index, lemma_first_index, lemma_first_index_at, lemma_first_index_push};
use crate::state::{EscrowState, ErrorCode, SwapStage, SwapState, UserEnum, UserState};
use crate::vault::{
    address_is, emptied, emptied_escrows, escrowed_of, find_address, find_escrow,
    lemma_escrowed_first, lemma_escrowed_push, lemma_escrowed_update, mint_is, holds_units, room_for_units, accept_holds, pay_units, release_escrows,
    release_ok, units_of,
};

verus! {

pub open spec fn live_pair(offeror: Seq<u8>, offeree: Seq<u8>) -> spec_fn(SwapState) -> bool {
    |r: SwapState| r.offeror@ == offeror && r.offeree@ == offeree && r.stage.is_live()
}

pub open spec fn live_at(address: Seq<u8>) -> spec_fn(SwapState) -> bool {
    |r: SwapState| r.address@ == address && r.stage.is_live()
}

/// Record `post` is record `pre` moved to stage `stage`; its vaults are
/// described apart (see `emptied`).
pub open spec fn settled(pre: SwapState, post: SwapState, stage: SwapStage) -> bool {
    &&& post.address == pre.address
    &&& post.offeror == pre.offeror
    &&& post.offeree == pre.offeree
    &&& post.swap_state_bump == pre.swap_state_bump
    &&& post.mints_offeree == pre.mints_offeree
    &&& post.stage == stage
}

/// Two records agree on everything but their asset lists and vaults.
pub open spec fn same_terms(a: SwapState, b: SwapState) -> bool {
    &&& a.address == b.address
    &&& a.offeror == b.offeror
    &&& a.offeree == b.offeree
    &&& a.swap_state_bump == b.swap_state_bump
    &&& a.stage == b.stage
}

impl SwapState {
    /// The record's authority and every vault address re-derive from the
    /// recorded seeds and bumps, and neither the vaults nor the offeree's
    /// asset list repeat an asset type.
    pub open spec fn wf(&self, program_id: Seq<u8>) -> bool {
        &&& self.offeror@ != self.offeree@
        &&& program_address(
            with_bump(swap_seeds(self.offeror@, self.offeree@), self.swap_state_bump),
            program_id,
        ) == Some(self.address@)
        &&& forall|j: int|
            0 <= j < self.escrows@.len() ==> program_address(
                with_bump(escrow_seeds(self.address@, (#[trigger] self.escrows@[j]).mint@), self.escrows@[j].ata_bump),
                program_id,
            ) == Some(self.escrows@[j].escrow@)
        &&& forall|j: int, k: int| 0 <= j < k < self.escrows@.len()
            ==> (#[trigger] self.escrows@[j]).mint@ != (#[trigger] self.escrows@[k]).mint@
        &&& forall|j: int, k: int| 0 <= j < k < self.mints_offeree@.len()
            ==> (#[trigger] self.mints_offeree@[j])@ != (#[trigger] self.mints_offeree@[k])@
    }
}

pub open spec fn engaged(r: SwapState) -> bool {
    r.stage is Proposed || r.stage is EscrowReleased
}

/// Every record re-derives, and no two open records share an ordered pair.
pub open spec fn table_wf(swaps: Seq<SwapState>, program_id: Seq<u8>) -> bool {
    &&& forall|i: int| 0 <= i < swaps.len() ==> (#[trigger] swaps[i]).wf(program_id)
    &&& forall|i: int, j: int|
        0 <= i < swaps.len() && 0 <= j < swaps.len() && i != j && (#[trigger] swaps[i]).stage.is_live()
            && (#[trigger] swaps[j]).stage.is_live() ==> !(swaps[i].offeror@ == swaps[j].offeror@
            && swaps[i].offeree@ == swaps[j].offeree@)
}

/// Replacing one record by a well-formed one with the same pair, open only
/// where the old one was, keeps the table well-formed.
pub proof fn lemma_replace_keeps_wf(pre: Seq<SwapState>, post: Seq<SwapState>, program_id: Seq<u8>, i: int)
    requires
        table_wf(pre, program_id),
        0 <= i < pre.len(),
        post.len() == pre.len(),
        forall|j: int| 0 <= j < pre.len() && j != i ==> #[trigger] post[j] == pre[j],
        post[i].wf(program_id),
        post[i].offeror == pre[i].offeror,
        post[i].offeree == pre[i].offeree,
        post[i].stage.is_live() ==> pre[i].stage.is_live(),
    ensures
        table_wf(post, program_id),
{
    assert forall|a: int| 0 <= a < post.len() implies (#[trigger] post[a]).wf(program_id) by {
        if a != i {
            assert(post[a] == pre[a]);
        }
    }
    assert forall|a: int, b: int|
        0 <= a < post.len() && 0 <= b < post.len() && a != b && (#[trigger] post[a]).stage.is_live()
            && (#[trigger] post[b]).stage.is_live() implies !(post[a].offeror@ == post[b].offeror@
        && post[a].offeree@ == post[b].offeree@) by {
        assert(pre[a].stage.is_live() && pre[b].stage.is_live());
    }
}

/// A successful `initialize_escrow`: the offeror's balance of `mint` fell
/// by `amount`, and the record's one vault for `mint`, which held nothing,
/// now holds `amount` (reused where it was opened before, else appended).
pub open spec fn funded(pre: SwapProgram, post: SwapProgram, offeror: Seq<u8>, offeree: Seq<u8>, mint: Seq<u8>, amount: u64) -> bool {
    let i = pre.live_pair_index(offeror, offeree);
    let rec = pre.swaps@[i];
    let post_rec = post.swaps@[i];
    let k = first_index(rec.escrows@, mint_is(mint));
    &&& i >= 0
    &&& post.ledger.balance(offeror, mint) == pre.ledger.balance(offeror, mint) - amount
    &&& forall|o: Seq<u8>, m: Seq<u8>| !(o == offeror && m == mint)
        ==> #[trigger] post.ledger.balance(o, m) == pre.ledger.balance(o, m)
    &&& post.swaps@.len() == pre.swaps@.len()
    &&& forall|j: int| 0 <= j < pre.swaps@.len() && j != i ==> #[trigger] post.swaps@[j] == pre.swaps@[j]
    &&& same_terms(post_rec, rec)
    &&& post_rec.mints_offeree == rec.mints_offeree
    &&& k >= 0 ==> post_rec.escrows@ == rec.escrows@.update(k, EscrowState { amount, ..rec.escrows@[k] })
    &&& k < 0 ==> {
        &&& post_rec.escrows@.drop_last() == rec.escrows@
        &&& post_rec.escrows@.len() == rec.escrows@.len() + 1
        &&& post_rec.escrows@.last().mint@ == mint
        &&& post_rec.escrows@.last().amount == amount
        &&& !post_rec.escrows@.last().closed
    }
    &&& escrowed_of(rec.escrows@, mint) == 0
    &&& forall|m: Seq<u8>| #[trigger] escrowed_of(post_rec.escrows@, m)
        == escrowed_of(rec.escrows@, m) + if m == mint { amount as nat } else { 0 }
    &&& post.users == pre.users
    &&& post.program_id == pre.program_id
}

/// A successful `initiate_swap`: the record's terms are frozen in stage
/// `Proposed` and the participants are engaged with each other.
pub open spec fn initiated(pre: SwapProgram, post: SwapProgram, offeror: Seq<u8>, offeree: Seq<u8>) -> bool {
    let i = pre.live_pair_index(offeror, offeree);
    &&& i >= 0
    &&& post.swaps@ == pre.swaps@.update(i, SwapState { stage: SwapStage::Proposed, ..pre.swaps@[i] })
    &&& post.role(offeror) == Some(UserEnum::Offeror)
    &&& post.role(offeree) == Some(UserEnum::Offeree)
    &&& post.counterparty(offeror) == Some(offeree)
    &&& post.counterparty(offeree) == Some(offeror)
    &&& forall|a: Seq<u8>| a != offeror && a != offeree ==> #[trigger] post.role(a) == pre.role(a)
    &&& forall|a: Seq<u8>| a != offeror && a != offeree ==> #[trigger] post.counterparty(a) == pre.counterparty(a)
    &&& post.ledger == pre.ledger
    &&& post.program_id == pre.program_id
}

/// A successful `cancel_swap` of an initiated swap: every vault's escrow is
/// back with the offeror, the vaults are emptied and closed, and both
/// participants are disengaged.
pub open spec fn cancelled(pre: SwapProgram, post: SwapProgram, swap: Seq<u8>, offeror: Seq<u8>, offeree: Seq<u8>) -> bool {
    let i = pre.live_index(swap);
    let rec = pre.swaps@[i];
    &&& rec.offeror@ == offeror && rec.offeree@ == offeree
    &&& rec.stage is Proposed
    &&& 0 <= i
    &&& pre.only_record_changed(&post, i)
    &&& settled(rec, post.swaps@[i], SwapStage::Cancelled)
    &&& emptied(rec.escrows@, post.swaps@[i].escrows@)
    &&& forall|o: Seq<u8>, m: Seq<u8>| #[trigger] post.ledger.balance(o, m)
        == pre.ledger.balance(o, m) + if o == offeror { escrowed_of(rec.escrows@, m) } else { 0 }
    &&& post.role(offeror) == reset(pre.role(offeror))
    &&& post.role(offeree) == reset(pre.role(offeree))
    &&& forall|a: Seq<u8>| a != offeror && a != offeree ==> #[trigger] post.role(a) == pre.role(a)
}

/// A successful `accept_leg_a`: every vault's escrow went to the offeree
/// and the vaults are emptied and closed.
pub open spec fn escrow_released(pre: SwapProgram, post: SwapProgram, swap: Seq<u8>, offeror: Seq<u8>, offeree: Seq<u8>) -> bool {
    let i = pre.live_index(swap);
    let rec = pre.swaps@[i];
    &&& rec.offeror@ == offeror && rec.offeree@ == offeree
    &&& rec.stage is Proposed
    &&& 0 <= i
    &&& pre.only_record_changed(&post, i)
    &&& settled(rec, post.swaps@[i], SwapStage::EscrowReleased)
    &&& emptied(rec.escrows@, post.swaps@[i].escrows@)
    &&& forall|o: Seq<u8>, m: Seq<u8>| #[trigger] post.ledger.balance(o, m)
        == pre.ledger.balance(o, m) + if o == offeree { escrowed_of(rec.escrows@, m) } else { 0 }
    &&& post.users == pre.users
}

/// A successful `accept_leg_b`: one unit of each listed asset type went
/// from the offeree to the offeror and both participants are disengaged.
pub open spec fn paid(pre: SwapProgram, post: SwapProgram, swap: Seq<u8>, offeror: Seq<u8>, offeree: Seq<u8>) -> bool {
    let i = pre.live_index(swap);
    let rec = pre.swaps@[i];
    &&& rec.offeror@ == offeror && rec.offeree@ == offeree
    &&& rec.stage is EscrowReleased
    &&& 0 <= i
    &&& pre.only_record_changed(&post, i)
    &&& settled(rec, post.swaps@[i], SwapStage::Accepted)
    &&& emptied(rec.escrows@, post.swaps@[i].escrows@)
    &&& forall|o: Seq<u8>, m: Seq<u8>| #[trigger] post.ledger.balance(o, m)
        + (if o == offeree { units_of(rec.mints_offeree@, m) } else { 0 })
        == pre.ledger.balance(o, m) + if o == offeror { units_of(rec.mints_offeree@, m) } else { 0 }
    &&& post.role(offeror) == reset(pre.role(offeror))
    &&& post.role(offeree) == reset(pre.role(offeree))
    &&& forall|a: Seq<u8>| a != offeror && a != offeree ==> #[trigger] post.role(a) == pre.role(a)
}

/// The whole protocol state: identity entries, swap records and the
/// participants' balances.
#[derive(Debug)]
pub struct SwapProgram {
    pub program_id: Address,
    pub users: Vec<UserState>,
    pub swaps: Vec<SwapState>,
    pub ledger: Ledger,
}

impl SwapProgram {
    pub open spec fn counterparty(&self, a: Seq<u8>) -> Option<Seq<u8>> {
        counterparty_in(self.users@, a)
    }

    /// The role of a participant, or `None` where it never registered.
    pub open spec fn role(&self, a: Seq<u8>) -> Option<UserEnum> {
        role_in(self.users@, a)
    }

    pub open spec fn live_pair_index(&self, offeror: Seq<u8>, offeree: Seq<u8>) -> int {
        first_index(self.swaps@, live_pair(offeror, offeree))
    }

    pub open spec fn live_index(&self, address: Seq<u8>) -> int {
        first_index(self.swaps@, live_at(address))
    }

    pub open spec fn wf(&self) -> bool {
        &&& table_wf(self.swaps@, self.program_id@)
        &&& self.engaged_registered()
    }

    /// Both participants of every initiated, unsettled swap are registered.
    pub open spec fn engaged_registered(&self) -> bool {
        forall|i: int| 0 <= i < self.swaps@.len() && engaged(#[trigger] self.swaps@[i])
            ==> self.role(self.swaps@[i].offeror@) is Some && self.role(self.swaps@[i].offeree@) is Some
    }

    /// Why an operation of `party` on the open record at `swap`, with the
    /// accounts `offeror` and `offeree` and signed by `signer`, is refused
    /// before its stage is looked at.
    pub open spec fn gate_error(
        &self,
        swap: Seq<u8>,
        offeror: Seq<u8>,
        offeree: Seq<u8>,
        signer: Seq<u8>,
        party: Seq<u8>,
    ) -> Option<ErrorCode> {
        let i = self.live_index(swap);
        if i < 0 {
            Some(ErrorCode::SwapNotFound)
        } else if self.swaps@[i].offeror@ != offeror || self.swaps@[i].offeree@ != offeree {
            Some(ErrorCode::WrongCounterparty)
        } else if signer != party {
            Some(ErrorCode::Unauthorized)
        } else {
            None
        }
    }

    /// Record `i` and the other records after settling record `i`.
    pub open spec fn only_record_changed(&self, post: &SwapProgram, i: int) -> bool {
        &&& post.swaps@.len() == self.swaps@.len()
        &&& forall|j: int| 0 <= j < self.swaps@.len() && j != i ==> #[trigger] post.swaps@[j] == self.swaps@[j]
        &&& post.program_id == self.program_id
    }

    /// An empty protocol state for the program `program_id`.
    pub fn new(program_id: Address, ledger: Ledger) -> (r: SwapProgram)
        ensures
            r.wf(),
            r.program_id == program_id,
            r.users@.len() == 0,
            r.swaps@.len() == 0,
            r.ledger == ledger,
    {
        SwapProgram { program_id, users: Vec::new(), swaps: Vec::new(), ledger }
    }

    fn find_user(&self, a: &Address) -> (r: Option<usize>)
        ensures
            r is Some <==> first_index(self.users@, user_is(a@)) >= 0,
            r is Some ==> r->Some_0 == first_index(self.users@, user_is(a@)),
    {
        proof {
            lemma_first_index(self.users@, user_is(a@));
        }
        let mut i: usize = 0;
        while i < self.users.len()
            invariant
                0 <= i <= self.users.len(),
                forall|j: int| 0 <= j < i ==> !user_is(a@)(#[trigger] self.users@[j]),
            decreases self.users.len() - i,
        {
            if self.users[i].user.same(a) {
                proof {
                    lemma_first_index_at(self.users@, user_is(a@), i as int);
                }
                return Some(i);
            }
            i = i + 1;
        }
        None
    }

    /// Index of the open record of the ordered pair.
    pub fn live_pair_record(&self, offeror: &Address, offeree: &Address) -> (r: Option<usize>)
        ensures
            r is Some <==> self.live_pair_index(offeror@, offeree@) >= 0,
            r is Some ==> r->Some_0 == self.live_pair_index(offeror@, offeree@),
    {
        proof {
            lemma_first_index(self.swaps@, live_pair(offeror@, offeree@));
        }
        let mut i: usize = 0;
        while i < self.swaps.len()
            invariant
                0 <= i <= self.swaps.len(),
                forall|j: int| 0 <= j < i ==> !live_pair(offeror@, offeree@)(#[trigger] self.swaps@[j]),
            decreases self.swaps.len() - i,
        {
            let rec = &self.swaps[i];
            if rec.offeror.same(offeror) && rec.offeree.same(offeree) && rec.stage.live() {
                proof {
                    lemma_first_index_at(self.swaps@, live_pair(offeror@, offeree@), i as int);
                }
                return Some(i);
            }
            i = i + 1;
        }
        None
    }

    /// Index of the open record whose derived address is `address`.
    pub fn live_record(&self, address: &Address) -> (r: Option<usize>)
        ensures
            r is Some <==> self.live_index(address@) >= 0,
            r is Some ==> r->Some_0 == self.live_index(address@),
    {
        proof {
            lemma_first_index(self.swaps@, live_at(address@));
        }
        let mut i: usize = 0;
        while i < self.swaps.len()
            invariant
                0 <= i <= self.swaps.len(),
                forall|j: int| 0 <= j < i ==> !live_at(address@)(#[trigger] self.swaps@[j]),
            decreases self.swaps.len() - i,
        {
            let rec = &self.swaps[i];
            if rec.address.same(address) && rec.stage.live() {
                proof {
                    lemma_first_index_at(self.swaps@, live_at(address@), i as int);
                }
                return Some(i);
            }
            i = i + 1;
        }
        None
    }

    /// Registers an identity entry for `user` with no role.
    pub fn initialize_user_state(&mut self, user: &Address) -> (r: Result<(), ErrorCode>)
        requires
            old(self).wf(),
        ensures
            final(self).wf(),
            old(self).role(user@) is Some ==> r == Err::<(), ErrorCode>(ErrorCode::AlreadyExists),
            old(self).role(user@) is None && derivable(user_seeds(user@), old(self).program_id@) ==> r is Ok,
            old(self).role(user@) is None && !derivable(user_seeds(user@), old(self).program_id@)
                ==> r == Err::<(), ErrorCode>(ErrorCode::DerivationFailed),
            r is Err ==> *final(self) == *old(self),
            r is Ok ==> {
                let entry = final(self).users@.last();
                &&& final(self).users@.drop_last() == old(self).users@
                &&& final(self).users@.len() == old(self).users@.len() + 1
                &&& entry.user@ == user@
                &&& entry.user_enum == UserEnum::NoRole
                &&& program_address(with_bump(user_seeds(user@), entry.bump), old(self).program_id@) is Some
                &&& final(self).role(user@) == Some(UserEnum::NoRole)
                &&& forall|a: Seq<u8>| a != user@ ==> #[trigger] final(self).role(a) == old(self).role(a)
                &&& final(self).swaps == old(self).swaps
                &&& final(self).ledger == old(self).ledger
                &&& final(self).program_id == old(self).program_id
            },
    {
        if self.find_user(user).is_some() {
            return Err(ErrorCode::AlreadyExists);
        }
        let (_, bump) = match find_user_address(&self.program_id, user) {
            Some(found) => found,
            None => {
                return Err(ErrorCode::DerivationFailed);
            },
        };
        let entry = UserState { user: *user, user_enum: UserEnum::NoRole, counter_party: *user, bump };
        let ghost pre = self.users@;
        self.users.push(entry);
        proof {
            assert(self.users@ == pre.push(entry));
            assert(self.users@.drop_last() =~= pre);
            lemma_first_index_push(pre, entry, user_is(user@));
            assert forall|a: Seq<u8>| a != user@ implies #[trigger] role_in(self.users@, a) == role_in(pre, a) by {
                lemma_first_index_push(pre, entry, user_is(a));
                lemma_first_index(pre, user_is(a));
            }
        }
        Ok(())
    }

    /// Opens a swap record for the ordered pair; at most one open record
    /// exists per pair.
    pub fn initialize_swap_state(&mut self, offeror: &Address, offeree: &Address) -> (r: Result<(), ErrorCode>)
        requires
            old(self).wf(),
        ensures
            final(self).wf(),
            offeror@ == offeree@ ==> r == Err::<(), ErrorCode>(ErrorCode::WrongCounterparty),
            offeror@ != offeree@ && old(self).live_pair_index(offeror@, offeree@) >= 0
                ==> r == Err::<(), ErrorCode>(ErrorCode::AlreadyExists),
            offeror@ != offeree@ && old(self).live_pair_index(offeror@, offeree@) < 0
                && derivable(swap_seeds(offeror@, offeree@), old(self).program_id@) ==> r is Ok,
            offeror@ != offeree@ && old(self).live_pair_index(offeror@, offeree@) < 0
                && !derivable(swap_seeds(offeror@, offeree@), old(self).program_id@)
                ==> r == Err::<(), ErrorCode>(ErrorCode::DerivationFailed),
            r is Err ==> *final(self) == *old(self),
            r is Ok ==> {
                let rec = final(self).swaps@.last();
                &&& final(self).swaps@.len() == old(self).swaps@.len() + 1
                &&& final(self).swaps@.drop_last() == old(self).swaps@
                &&& rec.offeror@ == offeror@ && rec.offeree@ == offeree@
                &&& rec.stage == SwapStage::Funding
                &&& rec.escrows@.len() == 0 && rec.mints_offeree@.len() == 0
                &&& final(self).live_pair_index(offeror@, offeree@) == old(self).swaps@.len()
                &&& final(self).users == old(self).users
                &&& final(self).ledger == old(self).ledger
                &&& final(self).program_id == old(self).program_id
            },
    {
        if offeror.same(offeree) {
            return Err(ErrorCode::WrongCounterparty);
        }
        if self.live_pair_record(offeror, offeree).is_some() {
            return Err(ErrorCode::AlreadyExists);
        }
        let (address, bump) = match find_swap_address(&self.program_id, offeror, offeree) {
            Some(found) => found,
            None => {
                return Err(ErrorCode::DerivationFailed);
            },
        };
        let rec = SwapState {
            address,
            offeror: *offeror,
            offeree: *offeree,
            swap_state_bump: bump,
            mints_offeree: Vec::new(),
            escrows: Vec::new(),
            stage: SwapStage::Funding,
        };
        let ghost pre = self.swaps@;
        proof {
            lemma_first_index(pre, live_pair(offeror@, offeree@));
        }
        self.swaps.push(rec);
        proof {
            assert(self.swaps@ == pre.push(rec));
            assert(self.swaps@.drop_last() =~= pre);
            lemma_first_index_push(pre, rec, live_pair(offeror@, offeree@));
            assert(live_pair(offeror@, offeree@)(rec));
            let post = self.swaps@;
            assert forall|i: int| 0 <= i < post.len() implies (#[trigger] post[i]).wf(self.program_id@) by {
                if i < pre.len() {
                    assert(post[i] == pre[i]);
                }
            }
            assert forall|i: int, j: int|
                0 <= i < post.len() && 0 <= j < post.len() && i != j
                    && (#[trigger] post[i]).stage.is_live() && (#[trigger] post[j]).stage.is_live()
                implies !(self.swaps@[i].offeror@ == self.swaps@[j].offeror@
                    && self.swaps@[i].offeree@ == self.swaps@[j].offeree@) by {
                if i == pre.len() {
                    assert(self.swaps@[j] == pre[j]);
                    assert(!live_pair(offeror@, offeree@)(pre[j]));
                } else if j == pre.len() {
                    assert(self.swaps@[i] == pre[i]);
                    assert(!live_pair(offeror@, offeree@)(pre[i]));
                } else {
                    assert(self.swaps@[i] == pre[i]);
                    assert(self.swaps@[j] == pre[j]);
                }
            }
        }
        Ok(())
    }

    /// The open record of the pair, where it is still being funded.
    fn funding_record(&self, offeror: &Address, offeree: &Address) -> (r: Result<usize, ErrorCode>)
        ensures
            -1 <= self.live_pair_index(offeror@, offeree@) < self.swaps@.len(),
            self.live_pair_index(offeror@, offeree@) < 0 <==> r == Err::<usize, ErrorCode>(ErrorCode::SwapNotFound),
            self.live_pair_index(offeror@, offeree@) >= 0 && !(self.swaps@[self.live_pair_index(offeror@, offeree@)].stage is Funding)
                <==> r == Err::<usize, ErrorCode>(ErrorCode::InvalidStage),
            r is Err ==> r == Err::<usize, ErrorCode>(ErrorCode::SwapNotFound)
                || r == Err::<usize, ErrorCode>(ErrorCode::InvalidStage),
            r is Ok ==> r->Ok_0 == self.live_pair_index(offeror@, offeree@)
                && r->Ok_0 < self.swaps@.len()
                && self.swaps@[r->Ok_0 as int].stage is Funding,
    {
        proof {
            lemma_first_index(self.swaps@, live_pair(offeror@, offeree@));
        }
        match self.live_pair_record(offeror, offeree) {
            None => Err(ErrorCode::SwapNotFound),
            Some(i) => {
                match self.swaps[i].stage {
                    SwapStage::Funding => Ok(i),
                    _ => Err(ErrorCode::InvalidStage),
                }
            },
        }
    }

    /// Opens an empty vault for one asset type of the offeror in a record
    /// that is still being funded.
    pub fn initialize_escrow_state(&mut self, offeror: &Address, offeree: &Address, mint: &Address) -> (r: Result<(), ErrorCode>)
        requires
            old(self).wf(),
        ensures
            final(self).wf(),
            r is Err ==> *final(self) == *old(self),
            ({
                let i = old(self).live_pair_index(offeror@, offeree@);
                let pre = old(self).swaps@[i];
                let post = final(self).swaps@[i];
                let absent = i >= 0 && pre.stage is Funding && first_index(pre.escrows@, mint_is(mint@)) < 0;
                &&& i < 0 ==> r == Err::<(), ErrorCode>(ErrorCode::SwapNotFound)
                &&& i >= 0 && !(pre.stage is Funding) ==> r == Err::<(), ErrorCode>(ErrorCode::InvalidStage)
                &&& i >= 0 && pre.stage is Funding && first_index(pre.escrows@, mint_is(mint@)) >= 0
                    ==> r == Err::<(), ErrorCode>(ErrorCode::AlreadyExists)
                &&& absent && derivable(escrow_seeds(pre.address@, mint@), old(self).program_id@) ==> r is Ok
                &&& absent && !derivable(escrow_seeds(pre.address@, mint@), old(self).program_id@)
                    ==> r == Err::<(), ErrorCode>(ErrorCode::DerivationFailed)
                &&& r is Ok ==> {
                    &&& i >= 0
                    &&& final(self).swaps@.len() == old(self).swaps@.len()
                    &&& forall|j: int| 0 <= j < old(self).swaps@.len() && j != i ==> #[trigger] final(self).swaps@[j] == old(self).swaps@[j]
                    &&& same_terms(post, pre)
                    &&& post.mints_offeree == pre.mints_offeree
                    &&& post.escrows@.drop_last() == pre.escrows@
                    &&& post.escrows@.len() == pre.escrows@.len() + 1
                    &&& post.escrows@.last().mint@ == mint@
                    &&& post.escrows@.last().amount == 0
                    &&& !post.escrows@.last().closed
                    &&& final(self).users == old(self).users
                    &&& final(self).ledger == old(self).ledger
                    &&& final(self).program_id == old(self).program_id
                }
            }),
    {
        let i = match self.funding_record(offeror, offeree) {
            Ok(i) => i,
            Err(e) => {
                return Err(e);
            },
        };
        if find_escrow(&self.swaps[i].escrows, mint).is_some() {
            return Err(ErrorCode::AlreadyExists);
        }
        self.open_escrow(i, mint)
    }

    /// Pushes an empty vault for `mint` onto record `i`, which has none.
    fn open_escrow(&mut self, i: usize, mint: &Address) -> (r: Result<(), ErrorCode>)
        requires
            old(self).wf(),
            i < old(self).swaps@.len(),
            first_index(old(self).swaps@[i as int].escrows@, mint_is(mint@)) < 0,
        ensures
            final(self).wf(),
            r is Ok <==> derivable(escrow_seeds(old(self).swaps@[i as int].address@, mint@), old(self).program_id@),
            r is Err ==> r == Err::<(), ErrorCode>(ErrorCode::DerivationFailed) && *final(self) == *old(self),
            r is Ok ==> {
                let pre = old(self).swaps@[i as int];
                let post = final(self).swaps@[i as int];
                &&& final(self).swaps@.len() == old(self).swaps@.len()
                &&& forall|j: int| 0 <= j < old(self).swaps@.len() && j != i ==> #[trigger] final(self).swaps@[j] == old(self).swaps@[j]
                &&& same_terms(post, pre)
                &&& post.mints_offeree == pre.mints_offeree
                &&& post.escrows@.drop_last() == pre.escrows@
                &&& post.escrows@.len() == pre.escrows@.len() + 1
                &&& post.escrows@.last().mint@ == mint@
                &&& post.escrows@.last().amount == 0
                &&& !post.escrows@.last().closed
                &&& final(self).users == old(self).users
                &&& final(self).ledger == old(self).ledger
                &&& final(self).program_id == old(self).program_id
            },
    {
        let (escrow, ata_bump) = match find_escrow_address(&self.program_id, &self.swaps[i].address, mint) {
            Some(found) => found,
            None => {
                return Err(ErrorCode::DerivationFailed);
            },
        };
        let e = EscrowState { escrow, mint: *mint, amount: 0, ata_bump, closed: false };
        let ghost pre = self.swaps@;
        proof {
            lemma_first_index(pre[i as int].escrows@, mint_is(mint@));
        }
        self.swaps[i].escrows.push(e);
        proof {
            let post = self.swaps@;
            let es = post[i as int].escrows@;
            assert(es == pre[i as int].escrows@.push(e));
            assert(es.drop_last() =~= pre[i as int].escrows@);
            assert(pre[i as int].wf(self.program_id@));
            assert forall|j: int| 0 <= j < es.len() implies program_address(
                with_bump(escrow_seeds(post[i as int].address@, (#[trigger] es[j]).mint@), es[j].ata_bump),
                self.program_id@,
            ) == Some(es[j].escrow@) by {
                if j < pre[i as int].escrows@.len() {
                    assert(es[j] == pre[i as int].escrows@[j]);
                }
            }
            assert forall|j: int, k: int| 0 <= j < k < es.len() implies (#[trigger] es[j]).mint@ != (#[trigger] es[k]).mint@ by {
                assert(es[j] == pre[i as int].escrows@[j]);
                if k < es.len() - 1 {
                    assert(es[k] == pre[i as int].escrows@[k]);
                } else {
                    assert(!mint_is(mint@)(pre[i as int].escrows@[j]));
                }
            }
            lemma_replace_keeps_wf(pre, post, self.program_id@, i as int);
        }
        Ok(())
    }

    /// Escrows `amount` of `mint` from the offeror into the record's vault
    /// for that asset type: an empty vault opened before is reused, one is
    /// opened where there is none, and an asset type already escrowed is
    /// refused.
    pub fn initialize_escrow(&mut self, offeror: &Address, offeree: &Address, mint: &Address, amount: u64) -> (r: Result<(), ErrorCode>)
        requires
            old(self).wf(),
        ensures
            final(self).wf(),
            r is Err ==> *final(self) == *old(self),
            ({
                let i = old(self).live_pair_index(offeror@, offeree@);
                let pre = old(self).swaps@[i];
                let k = first_index(pre.escrows@, mint_is(mint@));
                let funding = i >= 0 && pre.stage is Funding;
                let fresh = k < 0 || pre.escrows@[k].amount == 0;
                let covered = amount <= old(self).ledger.balance(offeror@, mint@);
                &&& i < 0 ==> r == Err::<(), ErrorCode>(ErrorCode::SwapNotFound)
                &&& i >= 0 && !(pre.stage is Funding) ==> r == Err::<(), ErrorCode>(ErrorCode::InvalidStage)
                &&& funding && !fresh ==> r == Err::<(), ErrorCode>(ErrorCode::AlreadyExists)
                &&& funding && fresh && !covered ==> r == Err::<(), ErrorCode>(ErrorCode::InsufficientBalance)
                &&& funding && fresh && covered && (k >= 0 || derivable(escrow_seeds(pre.address@, mint@), old(self).program_id@))
                    ==> r is Ok
                &&& funding && fresh && covered && k < 0 && !derivable(escrow_seeds(pre.address@, mint@), old(self).program_id@)
                    ==> r == Err::<(), ErrorCode>(ErrorCode::DerivationFailed)
                &&& r is Ok ==> funded(*old(self), *final(self), offeror@, offeree@, mint@, amount)
            }),
    {
        let i = match self.funding_record(offeror, offeree) {
            Ok(i) => i,
            Err(e) => {
                return Err(e);
            },
        };
        let found = find_escrow(&self.swaps[i].escrows, mint);
        match found {
            Some(k) => {
                if self.swaps[i].escrows[k].amount > 0 {
                    return Err(ErrorCode::AlreadyExists);
                }
            },
            None => {},
        }
        if self.ledger.balance_of(offeror, mint) < amount {
            return Err(ErrorCode::InsufficientBalance);
        }
        let ghost pre = self.swaps@[i as int];
        proof {
            assert(pre.wf(self.program_id@));
            lemma_escrowed_first(pre.escrows@, mint@);
            lemma_first_index(pre.escrows@, mint_is(mint@));
        }
        let k: usize = match found {
            Some(k) => k,
            None => {
                match self.open_escrow(i, mint) {
                    Ok(()) => {},
                    Err(e) => {
                        return Err(e);
                    },
                }
                self.swaps[i].escrows.len() - 1
            },
        };
        let ghost mid = self.swaps@;
        let ghost mid_es = self.swaps@[i as int].escrows@;
        proof {
            assert forall|m: Seq<u8>| #[trigger] escrowed_of(mid_es, m) == escrowed_of(pre.escrows@, m) by {
                if found is None {
                    assert(mid_es == pre.escrows@.push(mid_es.last()));
                    lemma_escrowed_push(pre.escrows@, mid_es.last(), m);
                }
            }
        }
        let debited = self.ledger.debit(offeror, mint, amount);
        assert(debited is Ok);
        let old_e = self.swaps[i].escrows[k];
        let new_e = EscrowState { amount, ..old_e };
        self.swaps[i].escrows.set(k, new_e);
        proof {
            let post = self.swaps@;
            let es = post[i as int].escrows@;
            assert(es == mid_es.update(k as int, new_e));
            assert(mid_es[k as int] == old_e);
            assert(old_e.mint@ == mint@ && old_e.amount == 0);
            assert forall|m: Seq<u8>| #[trigger] escrowed_of(es, m)
                == escrowed_of(pre.escrows@, m) + if m == mint@ { amount as nat } else { 0 } by {
                lemma_escrowed_update(mid_es, k as int, new_e, m);
            }
            assert(mid[i as int].wf(self.program_id@));
            assert forall|j: int| 0 <= j < es.len() implies program_address(
                with_bump(escrow_seeds(post[i as int].address@, (#[trigger] es[j]).mint@), es[j].ata_bump),
                self.program_id@,
            ) == Some(es[j].escrow@) by {
                assert(mid_es[j].mint == es[j].mint && mid_es[j].escrow == es[j].escrow && mid_es[j].ata_bump == es[j].ata_bump);
            }
            assert forall|j: int, l: int| 0 <= j < l < es.len() implies (#[trigger] es[j]).mint@ != (#[trigger] es[l]).mint@ by {
                assert(mid_es[j].mint == es[j].mint && mid_es[l].mint == es[l].mint);
            }
            if found is Some {
                assert(es =~= pre.escrows@.update(k as int, (EscrowState { amount, ..pre.escrows@[k as int] })));
            } else {
                assert(es.drop_last() =~= pre.escrows@);
            }
            lemma_replace_keeps_wf(mid, post, self.program_id@, i as int);
        }
        Ok(())
    }

    /// Lists one asset type that the offeree is to pay with, one unit of it.
    pub fn add_mint_offeree(&mut self, offeror: &Address, offeree: &Address, mint: &Address) -> (r: Result<(), ErrorCode>)
        requires
            old(self).wf(),
        ensures
            final(self).wf(),
            r is Err ==> *final(self) == *old(self),
            ({
                let i = old(self).live_pair_index(offeror@, offeree@);
                let pre = old(self).swaps@[i];
                let post = final(self).swaps@[i];
                let funding = i >= 0 && pre.stage is Funding;
                &&& i < 0 ==> r == Err::<(), ErrorCode>(ErrorCode::SwapNotFound)
                &&& i >= 0 && !(pre.stage is Funding) ==> r == Err::<(), ErrorCode>(ErrorCode::InvalidStage)
                &&& funding && first_index(pre.mints_offeree@, address_is(mint@)) >= 0
                    ==> r == Err::<(), ErrorCode>(ErrorCode::AlreadyExists)
                &&& funding && first_index(pre.mints_offeree@, address_is(mint@)) < 0 ==> r is Ok
                &&& r is Ok ==> {
                    &&& i >= 0
                    &&& final(self).swaps@.len() == old(self).swaps@.len()
                    &&& forall|j: int| 0 <= j < old(self).swaps@.len() && j != i ==> #[trigger] final(self).swaps@[j] == old(self).swaps@[j]
                    &&& same_terms(post, pre)
                    &&& post.escrows == pre.escrows
                    &&& post.mints_offeree@ == pre.mints_offeree@.push(*mint)
                    &&& final(self).users == old(self).users
                    &&& final(self).ledger == old(self).ledger
                    &&& final(self).program_id == old(self).program_id
                }
            }),
    {
        let i = match self.funding_record(offeror, offeree) {
            Ok(i) => i,
            Err(e) => {
                return Err(e);
            },
        };
        if find_address(&self.swaps[i].mints_offeree, mint) {
            return Err(ErrorCode::AlreadyExists);
        }
        let ghost pre = self.swaps@;
        proof {
            lemma_first_index(pre[i as int].mints_offeree@, address_is(mint@));
            assert(pre[i as int].wf(self.program_id@));
        }
        self.swaps[i].mints_offeree.push(*mint);
        proof {
            let ms = self.swaps@[i as int].mints_offeree@;
            assert(ms == pre[i as int].mints_offeree@.push(*mint));
            assert forall|j: int, k: int| 0 <= j < k < ms.len() implies (#[trigger] ms[j])@ != (#[trigger] ms[k])@ by {
                assert(ms[j] == pre[i as int].mints_offeree@[j]);
                if k < ms.len() - 1 {
                    assert(ms[k] == pre[i as int].mints_offeree@[k]);
                } else {
                    assert(!address_is(mint@)(pre[i as int].mints_offeree@[j]));
                }
            }
            lemma_replace_keeps_wf(pre, self.swaps@, self.program_id@, i as int);
        }
        Ok(())
    }

    /// Freezes the record's terms and engages both participants with each
    /// other.
    pub fn initiate_swap(&mut self, offeror: &Address, offeree: &Address) -> (r: Result<(), ErrorCode>)
        requires
            old(self).wf(),
        ensures
            final(self).wf(),
            r is Err ==> *final(self) == *old(self),
            ({
                let i = old(self).live_pair_index(offeror@, offeree@);
                let pre = old(self).swaps@[i];
                let funding = i >= 0 && pre.stage is Funding;
                let registered = old(self).role(offeror@) is Some && old(self).role(offeree@) is Some;
                let idle = old(self).role(offeror@) == Some(UserEnum::NoRole)
                    && old(self).role(offeree@) == Some(UserEnum::NoRole);
                &&& i < 0 ==> r == Err::<(), ErrorCode>(ErrorCode::SwapNotFound)
                &&& i >= 0 && !(pre.stage is Funding) ==> r == Err::<(), ErrorCode>(ErrorCode::InvalidStage)
                &&& funding && !registered ==> r == Err::<(), ErrorCode>(ErrorCode::NotRegistered)
                &&& funding && registered && !idle ==> r == Err::<(), ErrorCode>(ErrorCode::ParticipantBusy)
                &&& funding && idle ==> r is Ok
                &&& r is Ok ==> initiated(*old(self), *final(self), offeror@, offeree@)
            }),
    {
        let i = match self.funding_record(offeror, offeree) {
            Ok(i) => i,
            Err(e) => {
                return Err(e);
            },
        };
        proof {
            lemma_first_index(self.users@, user_is(offeror@));
            lemma_first_index(self.users@, user_is(offeree@));
            lemma_first_index(self.swaps@, live_pair(offeror@, offeree@));
            assert(self.swaps@[i as int].wf(self.program_id@));
            assert(offeror@ != offeree@);
        }
        let a = match self.find_user(offeror) {
            Some(a) => a,
            None => {
                return Err(ErrorCode::NotRegistered);
            },
        };
        let b = match self.find_user(offeree) {
            Some(b) => b,
            None => {
                return Err(ErrorCode::NotRegistered);
            },
        };
        if self.users[a].user_enum != UserEnum::NoRole || self.users[b].user_enum != UserEnum::NoRole {
            return Err(ErrorCode::ParticipantBusy);
        }
        let ghost pre = self.swaps@;
        self.swaps[i].stage = SwapStage::Proposed;
        proof {
            assert(self.swaps@ =~= pre.update(i as int, SwapState { stage: SwapStage::Proposed, ..pre[i as int] }));
            lemma_replace_keeps_wf(pre, self.swaps@, self.program_id@, i as int);
        }
        set_role(&mut self.users, a, offeror, UserEnum::Offeror, offeree);
        proof {
            lemma_first_index(self.users@, user_is(offeree@));
        }
        let b2 = match self.find_user(offeree) {
            Some(b2) => b2,
            None => {
                return Err(ErrorCode::NotRegistered);
            },
        };
        set_role(&mut self.users, b2, offeree, UserEnum::Offeree, offeror);
        Ok(())
    }

    fn gate(&self, signer: &Address, swap: &Address, offeror: &Address, offeree: &Address, party: &Address) -> (r: Result<usize, ErrorCode>)
        requires
            self.wf(),
        ensures
            -1 <= self.live_index(swap@) < self.swaps@.len(),
            self.gate_error(swap@, offeror@, offeree@, signer@, party@) is Some
                <==> r == Err::<usize, ErrorCode>(self.gate_error(swap@, offeror@, offeree@, signer@, party@)->Some_0),
            self.gate_error(swap@, offeror@, offeree@, signer@, party@) is None ==> r is Ok,
            r is Ok ==> r->Ok_0 == self.live_index(swap@) && self.swaps@[r->Ok_0 as int].offeror@ == offeror@
                && self.swaps@[r->Ok_0 as int].offeree@ == offeree@,
    {
        proof {
            lemma_first_index(self.swaps@, live_at(swap@));
        }
        let i = match self.live_record(swap) {
            Some(i) => i,
            None => {
                return Err(ErrorCode::SwapNotFound);
            },
        };
        if !self.swaps[i].offeror.same(offeror) || !self.swaps[i].offeree.same(offeree) {
            return Err(ErrorCode::WrongCounterparty);
        }
        if !signer.same(party) {
            return Err(ErrorCode::Unauthorized);
        }
        match self.check_authority(i) {
            Ok(()) => {},
            Err(e) => {
                return Err(e);
            },
        }
        Ok(i)
    }

    /// Re-derives the record's authority and every vault address of record
    /// `i` from its recorded seeds and bumps. The engine only stores records
    /// whose addresses derive this way, so in a well-formed state the check
    /// always passes and `AuthorityMismatch` cannot come from an operation;
    /// it guards against records that did not come from the engine.
    fn check_authority(&self, i: usize) -> (r: Result<(), ErrorCode>)
        requires
            self.wf(),
            i < self.swaps@.len(),
        ensures
            r is Ok,
    {
        let rec = &self.swaps[i];
        proof {
            assert(self.swaps@[i as int].wf(self.program_id@));
        }
        match check_swap_authority(&self.program_id, &rec.offeror, &rec.offeree, rec.swap_state_bump, &rec.address) {
            Ok(()) => {},
            Err(e) => {
                return Err(e);
            },
        }
        let mut j: usize = 0;
        while j < rec.escrows.len()
            invariant
                0 <= j <= rec.escrows.len(),
                rec.wf(self.program_id@),
            decreases rec.escrows.len() - j,
        {
            let e = &rec.escrows[j];
            match check_escrow_authority(&self.program_id, &rec.address, &e.mint, e.ata_bump, &e.escrow) {
                Ok(()) => {},
                Err(err) => {
                    return Err(err);
                },
            }
            j = j + 1;
        }
        Ok(())
    }

    /// Sets a registered participant's role back to `NoRole`.
    fn disengage(&mut self, a: &Address, counter_party: &Address)
        ensures
            final(self).role(a@) == reset(old(self).role(a@)),
            forall|b: Seq<u8>| b != a@ ==> #[trigger] final(self).role(b) == old(self).role(b),
            final(self).swaps == old(self).swaps,
            final(self).ledger == old(self).ledger,
            final(self).program_id == old(self).program_id,
    {
        match self.find_user(a) {
            Some(i) => {
                proof {
                    lemma_first_index(self.users@, user_is(a@));
                }
                set_role(&mut self.users, i, a, UserEnum::NoRole, counter_party);
            },
            None => {},
        }
    }

    /// Marks record `i` settled in `stage` with its vaults emptied.
    fn settle(&mut self, i: usize, stage: SwapStage)
        requires
            old(self).wf(),
            i < old(self).swaps@.len(),
            !stage.is_live() || old(self).swaps@[i as int].stage.is_live(),
            engaged(SwapState { stage, ..old(self).swaps@[i as int] }) ==> engaged(old(self).swaps@[i as int]),
        ensures
            final(self).wf(),
            old(self).only_record_changed(final(self), i as int),
            settled(old(self).swaps@[i as int], final(self).swaps@[i as int], stage),
            emptied(old(self).swaps@[i as int].escrows@, final(self).swaps@[i as int].escrows@),
            final(self).users == old(self).users,
            final(self).ledger == old(self).ledger,
    {
        let ghost pre = self.swaps@;
        let es = emptied_escrows(&self.swaps[i].escrows);
        self.swaps[i].escrows = es;
        self.swaps[i].stage = stage;
        proof {
            let post = self.swaps@;
            assert(pre[i as int].wf(self.program_id@));
            assert forall|j: int| 0 <= j < post[i as int].escrows@.len() implies program_address(
                with_bump(escrow_seeds(post[i as int].address@, (#[trigger] post[i as int].escrows@[j]).mint@), post[i as int].escrows@[j].ata_bump),
                self.program_id@,
            ) == Some(post[i as int].escrows@[j].escrow@) by {
                assert(post[i as int].escrows@[j] == (EscrowState { amount: 0, closed: true, ..pre[i as int].escrows@[j] }));
            }
            lemma_replace_keeps_wf(pre, post, self.program_id@, i as int);
            assert forall|j: int| 0 <= j < post.len() && engaged(#[trigger] post[j]) implies
                self.role(post[j].offeror@) is Some && self.role(post[j].offeree@) is Some by {
                assert(engaged(pre[j]));
            }
        }
    }

    /// The offeror withdraws an initiated offer: every vault's escrow returns
    /// to the offeror, the vaults are closed, and both participants are
    /// disengaged. A record still being funded, or settled, is refused.
    pub fn cancel_swap(&mut self, signer: &Address, swap: &Address, offeror: &Address, offeree: &Address) -> (r: Result<(), ErrorCode>)
        requires
            old(self).wf(),
        ensures
            final(self).wf(),
            r is Err ==> *final(self) == *old(self),
            ({
                let g = old(self).gate_error(swap@, offeror@, offeree@, signer@, offeror@);
                let i = old(self).live_index(swap@);
                let rec = old(self).swaps@[i];
                let stage_ok = rec.stage is Proposed;
                &&& g is Some ==> r == Err::<(), ErrorCode>(g->Some_0)
                &&& g is None && !stage_ok ==> r == Err::<(), ErrorCode>(ErrorCode::InvalidStage)
                &&& g is None && stage_ok ==> (r is Ok <==> release_ok(old(self).ledger, rec.escrows@, offeror@))
                &&& g is None && stage_ok && r is Err ==> r == Err::<(), ErrorCode>(ErrorCode::Overflow)
                &&& r is Ok ==> cancelled(*old(self), *final(self), swap@, offeror@, offeree@)
            }),
    {
        let i = match self.gate(signer, swap, offeror, offeree, offeror) {
            Ok(i) => i,
            Err(e) => {
                return Err(e);
            },
        };
        match self.swaps[i].stage {
            SwapStage::Proposed => {},
            _ => {
                return Err(ErrorCode::InvalidStage);
            },
        }
        let mut next = self.ledger.copy();
        match release_escrows(&mut next, &self.swaps[i].escrows, offeror) {
            Ok(()) => {},
            Err(e) => {
                return Err(e);
            },
        }
        self.settle(i, SwapStage::Cancelled);
        self.ledger = next;
        self.disengage(offeror, offeree);
        self.disengage(offeree, offeror);
        Ok(())
    }

    /// First leg of acceptance, signed by the offeree: every vault's escrow
    /// goes to the offeree and the vaults are closed. The second leg must
    /// run in the same all-or-nothing bundle.
    pub fn accept_leg_a(&mut self, signer: &Address, swap: &Address, offeror: &Address, offeree: &Address) -> (r: Result<(), ErrorCode>)
        requires
            old(self).wf(),
        ensures
            final(self).wf(),
            r is Err ==> *final(self) == *old(self),
            ({
                let g = old(self).gate_error(swap@, offeror@, offeree@, signer@, offeree@);
                let i = old(self).live_index(swap@);
                let rec = old(self).swaps@[i];
                &&& g is Some ==> r == Err::<(), ErrorCode>(g->Some_0)
                &&& g is None && !(rec.stage is Proposed) ==> r == Err::<(), ErrorCode>(ErrorCode::InvalidStage)
                &&& g is None && rec.stage is Proposed ==> (r is Ok <==> release_ok(old(self).ledger, rec.escrows@, offeree@))
                &&& g is None && rec.stage is Proposed && r is Err ==> r == Err::<(), ErrorCode>(ErrorCode::Overflow)
                &&& r is Ok ==> escrow_released(*old(self), *final(self), swap@, offeror@, offeree@)
            }),
    {
        let i = match self.gate(signer, swap, offeror, offeree, offeree) {
            Ok(i) => i,
            Err(e) => {
                return Err(e);
            },
        };
        match self.swaps[i].stage {
            SwapStage::Proposed => {},
            _ => {
                return Err(ErrorCode::InvalidStage);
            },
        }
        let mut next = self.ledger.copy();
        match release_escrows(&mut next, &self.swaps[i].escrows, offeree) {
            Ok(()) => {},
            Err(e) => {
                return Err(e);
            },
        }
        self.settle(i, SwapStage::EscrowReleased);
        self.ledger = next;
        Ok(())
    }

    /// Second leg of acceptance, signed by the offeree: one unit of every
    /// listed asset type goes from the offeree to the offeror, and both
    /// participants are disengaged. Runs only after the first leg.
    pub fn accept_leg_b(&mut self, signer: &Address, swap: &Address, offeror: &Address, offeree: &Address) -> (r: Result<(), ErrorCode>)
        requires
            old(self).wf(),
        ensures
            final(self).wf(),
            r is Err ==> *final(self) == *old(self),
            ({
                let g = old(self).gate_error(swap@, offeror@, offeree@, signer@, offeree@);
                let i = old(self).live_index(swap@);
                let rec = old(self).swaps@[i];
                &&& g is Some ==> r == Err::<(), ErrorCode>(g->Some_0)
                &&& g is None && !(rec.stage is EscrowReleased) ==> r == Err::<(), ErrorCode>(ErrorCode::InvalidStage)
                &&& g is None && rec.stage is EscrowReleased && !holds_units(old(self).ledger, rec.mints_offeree@, offeree@)
                    ==> r == Err::<(), ErrorCode>(ErrorCode::InsufficientBalance)
                &&& g is None && rec.stage is EscrowReleased && holds_units(old(self).ledger, rec.mints_offeree@, offeree@)
                    && !room_for_units(old(self).ledger, rec.mints_offeree@, offeror@)
                    ==> r == Err::<(), ErrorCode>(ErrorCode::Overflow)
                &&& g is None && rec.stage is EscrowReleased && holds_units(old(self).ledger, rec.mints_offeree@, offeree@)
                    && room_for_units(old(self).ledger, rec.mints_offeree@, offeror@) ==> r is Ok
                &&& r is Ok ==> paid(*old(self), *final(self), swap@, offeror@, offeree@)
            }),
    {
        let i = match self.gate(signer, swap, offeror, offeree, offeree) {
            Ok(i) => i,
            Err(e) => {
                return Err(e);
            },
        };
        match self.swaps[i].stage {
            SwapStage::EscrowReleased => {},
            _ => {
                return Err(ErrorCode::InvalidStage);
            },
        }
        proof {
            assert(self.swaps@[i as int].wf(self.program_id@));
        }
        let mut next = self.ledger.copy();
        match pay_units(&mut next, &self.swaps[i].mints_offeree, offeree, offeror) {
            Ok(()) => {},
            Err(e) => {
                return Err(e);
            },
        }
        self.settle(i, SwapStage::Accepted);
        self.ledger = next;
        self.disengage(offeror, offeree);
        self.disengage(offeree, offeror);
        Ok(())
    }

    /// Acceptance in one operation, signed by the offeree: both legs run,
    /// or neither does.
    pub fn accept_swap(&mut self, signer: &Address, swap: &Address, offeror: &Address, offeree: &Address) -> (r: Result<(), ErrorCode>)
        requires
            old(self).wf(),
        ensures
            final(self).wf(),
            r is Err ==> *final(self) == *old(self),
            ({
                let g = old(self).gate_error(swap@, offeror@, offeree@, signer@, offeree@);
                let i = old(self).live_index(swap@);
                let rec = old(self).swaps@[i];
                &&& g is Some ==> r == Err::<(), ErrorCode>(g->Some_0)
                &&& g is None && !(rec.stage is Proposed) ==> r == Err::<(), ErrorCode>(ErrorCode::InvalidStage)
                &&& g is None && rec.stage is Proposed && !release_ok(old(self).ledger, rec.escrows@, offeree@)
                    ==> r == Err::<(), ErrorCode>(ErrorCode::Overflow)
                &&& g is None && rec.stage is Proposed && release_ok(old(self).ledger, rec.escrows@, offeree@)
                    && !accept_holds(old(self).ledger, rec.escrows@, rec.mints_offeree@, offeree@)
                    ==> r == Err::<(), ErrorCode>(ErrorCode::InsufficientBalance)
                &&& g is None && rec.stage is Proposed && accept_holds(old(self).ledger, rec.escrows@, rec.mints_offeree@, offeree@)
                    && !room_for_units(old(self).ledger, rec.mints_offeree@, offeror@)
                    ==> r == Err::<(), ErrorCode>(ErrorCode::Overflow)
                &&& g is None && rec.stage is Proposed && accept_holds(old(self).ledger, rec.escrows@, rec.mints_offeree@, offeree@)
                    && room_for_units(old(self).ledger, rec.mints_offeree@, offeror@) ==> r is Ok
                &&& r is Ok ==> {
                    &&& 0 <= i
                    &&& old(self).only_record_changed(final(self), i)
                    &&& settled(rec, final(self).swaps@[i], SwapStage::Accepted)
                    &&& emptied(rec.escrows@, final(self).swaps@[i].escrows@)
                    &&& forall|o: Seq<u8>, m: Seq<u8>| #[trigger] final(self).ledger.balance(o, m)
                        + (if o == offeree@ { units_of(rec.mints_offeree@, m) } else { 0 })
                        == old(self).ledger.balance(o, m)
                        + (if o == offeree@ { escrowed_of(rec.escrows@, m) } else { 0 })
                        + (if o == offeror@ { units_of(rec.mints_offeree@, m) } else { 0 })
                    &&& final(self).role(offeror@) == reset(old(self).role(offeror@))
                    &&& final(self).role(offeree@) == reset(old(self).role(offeree@))
                    &&& forall|a: Seq<u8>| a != offeror@ && a != offeree@ ==> #[trigger] final(self).role(a) == old(self).role(a)
                }
            }),
    {
        let i = match self.gate(signer, swap, offeror, offeree, offeree) {
            Ok(i) => i,
            Err(e) => {
                return Err(e);
            },
        };
        match self.swaps[i].stage {
            SwapStage::Proposed => {},
            _ => {
                return Err(ErrorCode::InvalidStage);
            },
        }
        proof {
            assert(self.swaps@[i as int].wf(self.program_id@));
        }
        let ghost l0 = self.ledger;
        let ghost es = self.swaps@[i as int].escrows@;
        let ghost ms = self.swaps@[i as int].mints_offeree@;
        let mut next = self.ledger.copy();
        match release_escrows(&mut next, &self.swaps[i].escrows, offeree) {
            Ok(()) => {},
            Err(_) => {
                return Err(ErrorCode::Overflow);
            },
        }
        proof {
            assert forall|j: int| 0 <= j < ms.len() implies
                next.balance(offeree@, (#[trigger] ms[j])@) == l0.balance(offeree@, ms[j]@) + escrowed_of(es, ms[j]@)
                && next.balance(offeror@, ms[j]@) == l0.balance(offeror@, ms[j]@) by {
            }
            assert(holds_units(next, ms, offeree@) == accept_holds(l0, es, ms, offeree@));
            assert(room_for_units(next, ms, offeror@) == room_for_units(l0, ms, offeror@));
        }
        let ghost released = next;
        match pay_units(&mut next, &self.swaps[i].mints_offeree, offeree, offeror) {
            Ok(()) => {},
            Err(e) => {
                return Err(e);
            },
        }
        proof {
            assert forall|o: Seq<u8>, m: Seq<u8>| #[trigger] next.balance(o, m)
                + (if o == offeree@ { units_of(ms, m) } else { 0 })
                == l0.balance(o, m)
                + (if o == offeree@ { escrowed_of(es, m) } else { 0 })
                + (if o == offeror@ { units_of(ms, m) } else { 0 }) by {
                assert(released.balance(o, m) == l0.balance(o, m) + if o == offeree@ { escrowed_of(es, m) } else { 0 });
            }
        }
        self.settle(i, SwapStage::Accepted);
        self.ledger = next;
        self.disengage(offeror, offeree);
        self.disengage(offeree, offeror);
        Ok(())
    }

    /// Reconciliation of one swap: a record whose escrow reached the
    /// offeree while the offeree's payment never ran is a partial execution
    /// of the split acceptance.
    pub fn reconcile(&self, swap: &Address) -> (r: Result<(), ErrorCode>)
        ensures
            r is Err <==> self.live_index(swap@) >= 0 && self.swaps@[self.live_index(swap@)].stage is EscrowReleased,
            r is Err ==> r == Err::<(), ErrorCode>(ErrorCode::PartialExecutionInconsistency),
    {
        match self.live_record(swap) {
            Some(i) => {
                proof {
                    lemma_first_index(self.swaps@, live_at(swap@));
                }
                match self.swaps[i].stage {
                    SwapStage::EscrowReleased => Err(ErrorCode::PartialExecutionInconsistency),
                    _ => Ok(()),
                }
            },
            None => Ok(()),
        }
    }

    /// The role of a participant, or `None` where it never registered.
    pub fn user_role(&self, a: &Address) -> (r: Option<UserEnum>)
        ensures
            r == self.role(a@),
    {
        proof {
            lemma_first_index(self.users@, user_is(a@));
        }
        match self.find_user(a) {
            Some(i) => Some(self.users[i].user_enum),
            None => None,
        }
    }
}

} // verus!
