//! A model of the asset transfer service: balances of asset accounts, one
//! account per (owner, asset type).
use vstd::prelude::*;

use crate::address::Address;
use crate::search::{first_index, lemma_first_index, lemma_first_index_push, lemma_first_index_same};
use crate::state::ErrorCode;

verus! {

/// An asset account: how much of one asset type an owner holds.
#[derive(Clone, Copy, Debug)]
pub struct TokenAccount {
    pub owner: Address,
    pub mint: Address,
    pub amount: u64,
}

/// The balances that the protocol moves assets between.
#[derive(Debug)]
pub struct Ledger {
    pub accounts: Vec<TokenAccount>,
}

pub open spec fn holds_key(a: TokenAccount, owner: Seq<u8>, mint: Seq<u8>) -> bool {
    a.owner@ == owner && a.mint@ == mint
}

pub open spec fn account_is(owner: Seq<u8>, mint: Seq<u8>) -> spec_fn(TokenAccount) -> bool {
    |a: TokenAccount| holds_key(a, owner, mint)
}

/// Index of the first account of `owner` for `mint`, or -1.
pub open spec fn find_account(s: Seq<TokenAccount>, owner: Seq<u8>, mint: Seq<u8>) -> int {
    first_index(s, account_is(owner, mint))
}

pub open spec fn balance_in(s: Seq<TokenAccount>, owner: Seq<u8>, mint: Seq<u8>) -> nat {
    let i = find_account(s, owner, mint);
    if i >= 0 {
        s[i].amount as nat
    } else {
        0
    }
}

proof fn lemma_find_account(s: Seq<TokenAccount>, owner: Seq<u8>, mint: Seq<u8>)
    ensures
        -1 <= find_account(s, owner, mint) < s.len(),
        find_account(s, owner, mint) == -1 ==> forall|j: int|
            0 <= j < s.len() ==> !holds_key(#[trigger] s[j], owner, mint),
        find_account(s, owner, mint) >= 0 ==> holds_key(s[find_account(s, owner, mint)], owner, mint),
        find_account(s, owner, mint) >= 0 ==> forall|j: int|
            0 <= j < find_account(s, owner, mint) ==> !holds_key(#[trigger] s[j], owner, mint),
{
    lemma_first_index(s, account_is(owner, mint));
}

proof fn lemma_find_same_keys(s: Seq<TokenAccount>, t: Seq<TokenAccount>, owner: Seq<u8>, mint: Seq<u8>)
    requires
        s.len() == t.len(),
        forall|j: int| 0 <= j < s.len() ==> (#[trigger] s[j]).owner@ == t[j].owner@ && s[j].mint@ == t[j].mint@,
    ensures
        find_account(s, owner, mint) == find_account(t, owner, mint),
{
    assert forall|j: int| 0 <= j < s.len() implies account_is(owner, mint)(#[trigger] s[j])
        == account_is(owner, mint)(t[j]) by {}
    lemma_first_index_same(s, t, account_is(owner, mint));
}

pub proof fn lemma_balance_bounded(l: Ledger, owner: Seq<u8>, mint: Seq<u8>)
    ensures
        l.balance(owner, mint) <= u64::MAX,
{
}

impl Ledger {
    pub open spec fn balance(&self, owner: Seq<u8>, mint: Seq<u8>) -> nat {
        balance_in(self.accounts@, owner, mint)
    }

    /// A ledger with no accounts: every balance is zero.
    pub fn new() -> (r: Ledger)
        ensures
            forall|o: Seq<u8>, m: Seq<u8>| #[trigger] r.balance(o, m) == 0,
    {
        Ledger { accounts: Vec::new() }
    }

    fn find(&self, owner: &Address, mint: &Address) -> (r: Option<usize>)
        ensures
            r is Some <==> find_account(self.accounts@, owner@, mint@) >= 0,
            r is Some ==> r->Some_0 == find_account(self.accounts@, owner@, mint@),
            r is Some ==> r->Some_0 < self.accounts.len(),
    {
        proof {
            lemma_find_account(self.accounts@, owner@, mint@);
        }
        let mut i: usize = 0;
        while i < self.accounts.len()
            invariant
                0 <= i <= self.accounts.len(),
                forall|j: int| 0 <= j < i ==> !holds_key(#[trigger] self.accounts@[j], owner@, mint@),
            decreases self.accounts.len() - i,
        {
            let a = &self.accounts[i];
            if a.owner.same(owner) && a.mint.same(mint) {
                proof {
                    lemma_find_account(self.accounts@, owner@, mint@);
                }
                return Some(i);
            }
            i = i + 1;
        }
        proof {
            lemma_find_account(self.accounts@, owner@, mint@);
        }
        None
    }

    /// An independent ledger with the same accounts.
    pub fn copy(&self) -> (r: Ledger)
        ensures
            r.accounts@ == self.accounts@,
    {
        let mut accounts: Vec<TokenAccount> = Vec::new();
        let mut i: usize = 0;
        while i < self.accounts.len()
            invariant
                0 <= i <= self.accounts.len(),
                accounts@ == self.accounts@.take(i as int),
            decreases self.accounts.len() - i,
        {
            accounts.push(self.accounts[i]);
            i = i + 1;
            assert(accounts@ =~= self.accounts@.take(i as int));
        }
        assert(self.accounts@.take(self.accounts@.len() as int) =~= self.accounts@);
        Ledger { accounts }
    }

    /// What `owner` holds of `mint`.
    pub fn balance_of(&self, owner: &Address, mint: &Address) -> (r: u64)
        ensures
            r == self.balance(owner@, mint@),
    {
        match self.find(owner, mint) {
            Some(i) => self.accounts[i].amount,
            None => 0,
        }
    }

    fn set_balance(&mut self, owner: &Address, mint: &Address, amount: u64)
        ensures
            final(self).balance(owner@, mint@) == amount,
            forall|o: Seq<u8>, m: Seq<u8>|
                !(o == owner@ && m == mint@) ==> #[trigger] final(self).balance(o, m)
                    == old(self).balance(o, m),
    {
        proof {
            lemma_find_account(self.accounts@, owner@, mint@);
        }
        match self.find(owner, mint) {
            Some(i) => {
                let ghost pre = self.accounts@;
                let a = TokenAccount { owner: self.accounts[i].owner, mint: self.accounts[i].mint, amount };
                self.accounts.set(i, a);
                assert forall|o: Seq<u8>, m: Seq<u8>|
                    #[trigger] find_account(self.accounts@, o, m) == find_account(pre, o, m) by {
                    lemma_find_same_keys(pre, self.accounts@, o, m);
                }
                assert forall|o: Seq<u8>, m: Seq<u8>|
                    !(o == owner@ && m == mint@) implies #[trigger] self.balance(o, m)
                        == balance_in(pre, o, m) by {
                    lemma_find_account(pre, o, m);
                    assert(find_account(self.accounts@, o, m) == find_account(pre, o, m));
                }
                assert(find_account(self.accounts@, owner@, mint@) == i);
            },
            None => {
                let ghost pre = self.accounts@;
                let a = TokenAccount { owner: *owner, mint: *mint, amount };
                self.accounts.push(a);
                proof {
                    assert(self.accounts@ == pre.push(a));
                    lemma_find_account(pre, owner@, mint@);
                    lemma_first_index_push(pre, a, account_is(owner@, mint@));
                }
                assert forall|o: Seq<u8>, m: Seq<u8>|
                    !(o == owner@ && m == mint@) implies #[trigger] self.balance(o, m)
                        == balance_in(pre, o, m) by {
                    lemma_find_account(pre, o, m);
                    lemma_first_index_push(pre, a, account_is(o, m));
                }
            },
        }
    }

    /// Adds `amount` of `mint` to what `owner` holds.
    pub fn credit(&mut self, owner: &Address, mint: &Address, amount: u64) -> (r: Result<(), ErrorCode>)
        ensures
            r is Ok <==> old(self).balance(owner@, mint@) + amount <= u64::MAX,
            r is Err ==> r == Err::<(), ErrorCode>(ErrorCode::Overflow) && *final(self) == *old(self),
            r is Ok ==> final(self).balance(owner@, mint@) == old(self).balance(owner@, mint@) + amount,
            forall|o: Seq<u8>, m: Seq<u8>|
                !(o == owner@ && m == mint@) ==> #[trigger] final(self).balance(o, m)
                    == old(self).balance(o, m),
    {
        let have = self.balance_of(owner, mint);
        if have > u64::MAX - amount {
            return Err(ErrorCode::Overflow);
        }
        self.set_balance(owner, mint, have + amount);
        Ok(())
    }

    /// Takes `amount` of `mint` from what `owner` holds.
    pub fn debit(&mut self, owner: &Address, mint: &Address, amount: u64) -> (r: Result<(), ErrorCode>)
        ensures
            r is Ok <==> amount <= old(self).balance(owner@, mint@),
            r is Err ==> r == Err::<(), ErrorCode>(ErrorCode::InsufficientBalance) && *final(self) == *old(self),
            r is Ok ==> final(self).balance(owner@, mint@) == old(self).balance(owner@, mint@) - amount,
            forall|o: Seq<u8>, m: Seq<u8>|
                !(o == owner@ && m == mint@) ==> #[trigger] final(self).balance(o, m)
                    == old(self).balance(o, m),
    {
        let have = self.balance_of(owner, mint);
        if have < amount {
            return Err(ErrorCode::InsufficientBalance);
        }
        self.set_balance(owner, mint, have - amount);
        Ok(())
    }
}

} // verus!
