//! Vault custody: what the vaults of a swap hold, and moving assets out of
//! them and between participants.
use vstd::prelude::*;

use crate::address::Address;
use crate::ledger::{lemma_balance_bounded, Ledger};
use crate::search::{first_index, lemma_first_index, lemma_first_index_at, lemma_first_index_none};
use crate::state::{EscrowState, ErrorCode};

verus! {

pub open spec fn mint_is(m: Seq<u8>) -> spec_fn(EscrowState) -> bool {
    |e: EscrowState| e.mint@ == m
}

pub open spec fn address_is(m: Seq<u8>) -> spec_fn(Address) -> bool {
    |a: Address| a@ == m
}

/// What the vaults in `es` hold of asset type `m`, together.
pub open spec fn escrowed_of(es: Seq<EscrowState>, m: Seq<u8>) -> nat
    decreases es.len(),
{
    if es.len() == 0 {
        0
    } else {
        escrowed_of(es.drop_last(), m) + if es.last().mint@ == m {
            es.last().amount as nat
        } else {
            0
        }
    }
}

pub proof fn lemma_escrowed_push(es: Seq<EscrowState>, e: EscrowState, m: Seq<u8>)
    ensures
        escrowed_of(es.push(e), m) == escrowed_of(es, m) + if e.mint@ == m {
            e.amount as nat
        } else {
            0
        },
{
    assert(es.push(e).drop_last() =~= es);
}

/// Where no asset type repeats, what the vaults hold of `m` is what its
/// one vault holds.
pub proof fn lemma_escrowed_first(es: Seq<EscrowState>, m: Seq<u8>)
    requires
        forall|j: int, k: int| 0 <= j < k < es.len() ==> (#[trigger] es[j]).mint@ != (#[trigger] es[k]).mint@,
    ensures
        escrowed_of(es, m) == if first_index(es, mint_is(m)) >= 0 {
            es[first_index(es, mint_is(m))].amount as nat
        } else {
            0
        },
    decreases es.len(),
{
    if es.len() > 0 {
        let t = es.drop_last();
        assert forall|j: int, k: int| 0 <= j < k < t.len() implies (#[trigger] t[j]).mint@ != (#[trigger] t[k]).mint@ by {
            assert(t[j] == es[j] && t[k] == es[k]);
        }
        lemma_escrowed_first(t, m);
        lemma_first_index(t, mint_is(m));
        let r = first_index(t, mint_is(m));
        if r >= 0 {
            assert(t[r] == es[r]);
            assert(es[r].mint@ != es[es.len() - 1].mint@);
        }
    }
}

pub proof fn lemma_escrowed_update(es: Seq<EscrowState>, k: int, e: EscrowState, m: Seq<u8>)
    requires
        0 <= k < es.len(),
    ensures
        escrowed_of(es.update(k, e), m) + (if es[k].mint@ == m {
            es[k].amount as nat
        } else {
            0
        }) == escrowed_of(es, m) + if e.mint@ == m {
            e.amount as nat
        } else {
            0
        },
    decreases es.len(),
{
    let t = es.update(k, e);
    if k == es.len() - 1 {
        assert(t.drop_last() =~= es.drop_last());
    } else {
        assert(t.drop_last() =~= es.drop_last().update(k, e));
        lemma_escrowed_update(es.drop_last(), k, e, m);
    }
}

pub proof fn lemma_escrowed_take(es: Seq<EscrowState>, n: int, m: Seq<u8>)
    requires
        0 <= n <= es.len(),
    ensures
        escrowed_of(es.take(n), m) <= escrowed_of(es, m),
        n < es.len() ==> escrowed_of(es.take(n + 1), m) == escrowed_of(es.take(n), m) + if es[n].mint@ == m {
            es[n].amount as nat
        } else {
            0
        },
    decreases es.len(),
{
    if n < es.len() {
        assert(es.take(n + 1).drop_last() =~= es.take(n));
        assert(es.take(n) =~= es.drop_last().take(n));
        lemma_escrowed_take(es.drop_last(), n, m);
    } else {
        assert(es.take(n) =~= es);
    }
}

/// Every vault of `post` is the matching vault of `pre`, emptied and closed.
pub open spec fn emptied(pre: Seq<EscrowState>, post: Seq<EscrowState>) -> bool {
    &&& post.len() == pre.len()
    &&& forall|j: int| 0 <= j < pre.len() ==> (#[trigger] post[j]) == (EscrowState { amount: 0, closed: true, ..pre[j] })
}

pub proof fn lemma_emptied_holds_nothing(pre: Seq<EscrowState>, post: Seq<EscrowState>, m: Seq<u8>)
    requires
        emptied(pre, post),
    ensures
        escrowed_of(post, m) == 0,
    decreases pre.len(),
{
    if pre.len() > 0 {
        assert forall|j: int| 0 <= j < pre.len() - 1 implies (#[trigger] post.drop_last()[j])
            == (EscrowState { amount: 0, closed: true, ..pre.drop_last()[j] }) by {
            assert(post.drop_last()[j] == post[j]);
            assert(pre.drop_last()[j] == pre[j]);
        }
        lemma_emptied_holds_nothing(pre.drop_last(), post.drop_last(), m);
        assert(post.last() == post[post.len() - 1]);
    }
}

/// Releasing the vaults `es` to `to` overflows no balance.
pub open spec fn release_ok(l: Ledger, es: Seq<EscrowState>, to: Seq<u8>) -> bool {
    forall|j: int| 0 <= j < es.len() ==> l.balance(to, (#[trigger] es[j]).mint@) + escrowed_of(es, es[j].mint@) <= u64::MAX
}

/// `from` holds one unit of every listed asset type, counted with
/// repetition.
pub open spec fn holds_units(l: Ledger, ms: Seq<Address>, from: Seq<u8>) -> bool {
    forall|j: int| 0 <= j < ms.len() ==> units_of(ms, (#[trigger] ms[j])@) <= l.balance(from, ms[j]@)
}

/// Adding one unit of every listed asset type to `to` overflows no balance.
pub open spec fn room_for_units(l: Ledger, ms: Seq<Address>, to: Seq<u8>) -> bool {
    forall|j: int| 0 <= j < ms.len() ==> l.balance(to, (#[trigger] ms[j])@) + units_of(ms, ms[j]@) <= u64::MAX
}

/// The escrow of `es` reaches the offeree without overflow, and the
/// offeree then holds one unit of every listed asset type.
pub open spec fn accept_holds(l: Ledger, es: Seq<EscrowState>, ms: Seq<Address>, offeree: Seq<u8>) -> bool {
    &&& release_ok(l, es, offeree)
    &&& forall|j: int| 0 <= j < ms.len() ==> units_of(ms, (#[trigger] ms[j])@) <= l.balance(offeree, ms[j]@) + escrowed_of(es, ms[j]@)
}

/// Moves what every vault of `es` holds to `to`; fails only where a
/// balance of `to` would overflow.
pub(crate) fn release_escrows(ledger: &mut Ledger, es: &Vec<EscrowState>, to: &Address) -> (r: Result<(), ErrorCode>)
    ensures
        r is Ok <==> release_ok(*old(ledger), es@, to@),
        r is Err ==> r == Err::<(), ErrorCode>(ErrorCode::Overflow),
        r is Ok ==> forall|o: Seq<u8>, m: Seq<u8>| #[trigger] final(ledger).balance(o, m)
            == old(ledger).balance(o, m) + if o == to@ { escrowed_of(es@, m) } else { 0 },
{
    let ghost l0 = *ledger;
    let mut i: usize = 0;
    while i < es.len()
        invariant
            0 <= i <= es.len(),
            l0 == *old(ledger),
            forall|o: Seq<u8>, m: Seq<u8>| #[trigger] ledger.balance(o, m)
                == l0.balance(o, m) + if o == to@ { escrowed_of(es@.take(i as int), m) } else { 0 },
        decreases es.len() - i,
    {
        let e = es[i];
        proof {
            lemma_escrowed_take(es@, i as int, e.mint@);
            lemma_escrowed_take(es@, i as int + 1, e.mint@);
        }
        let ghost before = *ledger;
        match ledger.credit(to, &e.mint, e.amount) {
            Ok(()) => {},
            Err(_) => {
                proof {
                    assert(before.balance(to@, e.mint@) == l0.balance(to@, e.mint@) + escrowed_of(es@.take(i as int), e.mint@));
                    assert(es@[i as int] == e);
                    assert(!(l0.balance(to@, es@[i as int].mint@) + escrowed_of(es@, es@[i as int].mint@) <= u64::MAX));
                    assert(!(forall|j: int| 0 <= j < es@.len() ==> old(ledger).balance(to@, (#[trigger] es@[j]).mint@)
                        + escrowed_of(es@, es@[j].mint@) <= u64::MAX));
                }
                return Err(ErrorCode::Overflow);
            },
        }
        proof {
            assert forall|o: Seq<u8>, m: Seq<u8>| #[trigger] ledger.balance(o, m)
                == l0.balance(o, m) + if o == to@ { escrowed_of(es@.take(i + 1), m) } else { 0 } by {
                lemma_escrowed_take(es@, i as int, m);
                assert(before.balance(o, m) == l0.balance(o, m) + if o == to@ { escrowed_of(es@.take(i as int), m) } else { 0 });
            }
        }
        i = i + 1;
    }
    proof {
        assert(es@.take(es@.len() as int) =~= es@);
        assert forall|j: int| 0 <= j < es@.len() implies l0.balance(to@, (#[trigger] es@[j]).mint@)
            + escrowed_of(es@, es@[j].mint@) <= u64::MAX by {
            lemma_balance_bounded(*ledger, to@, es@[j].mint@);
        }
    }
    Ok(())
}

/// How many entries of `ms` are the asset type `m`.
pub open spec fn units_of(ms: Seq<Address>, m: Seq<u8>) -> nat
    decreases ms.len(),
{
    if ms.len() == 0 {
        0
    } else {
        units_of(ms.drop_last(), m) + if ms.last()@ == m {
            1nat
        } else {
            0
        }
    }
}

pub proof fn lemma_units_take(ms: Seq<Address>, n: int, m: Seq<u8>)
    requires
        0 <= n <= ms.len(),
    ensures
        units_of(ms.take(n), m) <= units_of(ms, m),
        n < ms.len() ==> units_of(ms.take(n + 1), m) == units_of(ms.take(n), m) + if ms[n]@ == m {
            1nat
        } else {
            0
        },
    decreases ms.len(),
{
    if n < ms.len() {
        assert(ms.take(n + 1).drop_last() =~= ms.take(n));
        assert(ms.take(n) =~= ms.drop_last().take(n));
        lemma_units_take(ms.drop_last(), n, m);
    } else {
        assert(ms.take(n) =~= ms);
    }
}

/// Takes one unit of every asset type listed in `ms` from `owner`.
fn debit_units(ledger: &mut Ledger, ms: &Vec<Address>, owner: &Address) -> (r: Result<(), ErrorCode>)
    ensures
        r is Ok <==> holds_units(*old(ledger), ms@, owner@),
        r is Err ==> r == Err::<(), ErrorCode>(ErrorCode::InsufficientBalance),
        r is Ok ==> forall|o: Seq<u8>, m: Seq<u8>| #[trigger] final(ledger).balance(o, m) + (if o == owner@ { units_of(ms@, m) } else { 0 })
            == old(ledger).balance(o, m),
{
    let ghost l0 = *ledger;
    let mut i: usize = 0;
    while i < ms.len()
        invariant
            0 <= i <= ms.len(),
            l0 == *old(ledger),
            forall|o: Seq<u8>, m: Seq<u8>| #[trigger] ledger.balance(o, m) + (if o == owner@ { units_of(ms@.take(i as int), m) } else { 0 })
                == l0.balance(o, m),
        decreases ms.len() - i,
    {
        let m = ms[i];
        proof {
            lemma_units_take(ms@, i as int, m@);
            lemma_units_take(ms@, i as int + 1, m@);
            assert(ms@[i as int] == m);
        }
        let ghost before = *ledger;
        proof {
            assert(before.balance(owner@, m@) + units_of(ms@.take(i as int), m@) == l0.balance(owner@, m@));
        }
        match ledger.debit(owner, &m, 1) {
            Ok(()) => {},
            Err(e) => {
                proof {
                    assert(!(units_of(ms@, (ms@[i as int])@) <= old(ledger).balance(owner@, ms@[i as int]@)));
                }
                return Err(e);
            },
        }
        proof {
            assert forall|o: Seq<u8>, k: Seq<u8>| #[trigger] ledger.balance(o, k) + (if o == owner@ { units_of(ms@.take(i + 1), k) } else { 0 })
                == l0.balance(o, k) by {
                lemma_units_take(ms@, i as int, k);
                assert(before.balance(o, k) + (if o == owner@ { units_of(ms@.take(i as int), k) } else { 0 }) == l0.balance(o, k));
            }
        }
        i = i + 1;
    }
    proof {
        assert(ms@.take(ms@.len() as int) =~= ms@);
        assert forall|j: int| 0 <= j < ms@.len() implies units_of(ms@, (#[trigger] ms@[j])@) <= l0.balance(owner@, ms@[j]@) by {
            assert(ledger.balance(owner@, ms@[j]@) + units_of(ms@, ms@[j]@) == l0.balance(owner@, ms@[j]@));
        }
    }
    Ok(())
}

/// Adds one unit of every asset type listed in `ms` to `owner`.
fn credit_units(ledger: &mut Ledger, ms: &Vec<Address>, owner: &Address) -> (r: Result<(), ErrorCode>)
    ensures
        r is Ok <==> room_for_units(*old(ledger), ms@, owner@),
        r is Err ==> r == Err::<(), ErrorCode>(ErrorCode::Overflow),
        r is Ok ==> forall|o: Seq<u8>, m: Seq<u8>| #[trigger] final(ledger).balance(o, m)
            == old(ledger).balance(o, m) + if o == owner@ { units_of(ms@, m) } else { 0 },
{
    let ghost l0 = *ledger;
    let mut i: usize = 0;
    while i < ms.len()
        invariant
            0 <= i <= ms.len(),
            l0 == *old(ledger),
            forall|o: Seq<u8>, m: Seq<u8>| #[trigger] ledger.balance(o, m)
                == l0.balance(o, m) + if o == owner@ { units_of(ms@.take(i as int), m) } else { 0 },
        decreases ms.len() - i,
    {
        let m = ms[i];
        proof {
            lemma_units_take(ms@, i as int, m@);
            lemma_units_take(ms@, i as int + 1, m@);
            assert(ms@[i as int] == m);
        }
        let ghost before = *ledger;
        proof {
            assert(before.balance(owner@, m@) == l0.balance(owner@, m@) + units_of(ms@.take(i as int), m@));
        }
        match ledger.credit(owner, &m, 1) {
            Ok(()) => {},
            Err(e) => {
                proof {
                    assert(!(old(ledger).balance(owner@, (ms@[i as int])@) + units_of(ms@, ms@[i as int]@) <= u64::MAX));
                }
                return Err(e);
            },
        }
        proof {
            assert forall|o: Seq<u8>, k: Seq<u8>| #[trigger] ledger.balance(o, k)
                == l0.balance(o, k) + if o == owner@ { units_of(ms@.take(i + 1), k) } else { 0 } by {
                lemma_units_take(ms@, i as int, k);
                assert(before.balance(o, k) == l0.balance(o, k) + if o == owner@ { units_of(ms@.take(i as int), k) } else { 0 });
            }
        }
        i = i + 1;
    }
    proof {
        assert(ms@.take(ms@.len() as int) =~= ms@);
        assert forall|j: int| 0 <= j < ms@.len() implies l0.balance(owner@, (#[trigger] ms@[j])@) + units_of(ms@, ms@[j]@) <= u64::MAX by {
            lemma_balance_bounded(*ledger, owner@, ms@[j]@);
        }
    }
    Ok(())
}

/// Moves one unit of every asset type listed in `ms` from `from` to `to`:
/// a short balance of `from` is reported before an overflow of `to`.
pub(crate) fn pay_units(ledger: &mut Ledger, ms: &Vec<Address>, from: &Address, to: &Address) -> (r: Result<(), ErrorCode>)
    requires
        from@ != to@,
    ensures
        r == Err::<(), ErrorCode>(ErrorCode::InsufficientBalance) <==> !holds_units(*old(ledger), ms@, from@),
        r == Err::<(), ErrorCode>(ErrorCode::Overflow) <==> holds_units(*old(ledger), ms@, from@)
            && !room_for_units(*old(ledger), ms@, to@),
        r is Ok <==> holds_units(*old(ledger), ms@, from@) && room_for_units(*old(ledger), ms@, to@),
        r is Ok ==> forall|o: Seq<u8>, m: Seq<u8>| #[trigger] final(ledger).balance(o, m) + (if o == from@ { units_of(ms@, m) } else { 0 })
            == old(ledger).balance(o, m) + if o == to@ { units_of(ms@, m) } else { 0 },
{
    let ghost l0 = *ledger;
    match debit_units(ledger, ms, from) {
        Ok(()) => {},
        Err(e) => {
            return Err(e);
        },
    }
    let ghost l1 = *ledger;
    proof {
        assert forall|j: int| 0 <= j < ms@.len() implies l1.balance(to@, (#[trigger] ms@[j])@) == l0.balance(to@, ms@[j]@) by {
            assert(l1.balance(to@, ms@[j]@) + 0 == l0.balance(to@, ms@[j]@));
        }
        assert(room_for_units(l1, ms@, to@) == room_for_units(l0, ms@, to@));
    }
    match credit_units(ledger, ms, to) {
        Ok(()) => {},
        Err(e) => {
            return Err(e);
        },
    }
    proof {
        assert forall|o: Seq<u8>, m: Seq<u8>| #[trigger] ledger.balance(o, m) + (if o == from@ { units_of(ms@, m) } else { 0 })
            == l0.balance(o, m) + if o == to@ { units_of(ms@, m) } else { 0 } by {
            assert(l1.balance(o, m) + (if o == from@ { units_of(ms@, m) } else { 0 }) == l0.balance(o, m));
        }
    }
    Ok(())
}

pub(crate) fn emptied_escrows(es: &Vec<EscrowState>) -> (r: Vec<EscrowState>)
    ensures
        emptied(es@, r@),
{
    let mut r: Vec<EscrowState> = Vec::new();
    let mut i: usize = 0;
    while i < es.len()
        invariant
            0 <= i <= es.len(),
            r@.len() == i,
            forall|j: int| 0 <= j < i ==> (#[trigger] r@[j]) == (EscrowState { amount: 0, closed: true, ..es@[j] }),
        decreases es.len() - i,
    {
        r.push(EscrowState { amount: 0, closed: true, ..es[i] });
        i = i + 1;
    }
    r
}

pub(crate) fn find_address(list: &Vec<Address>, a: &Address) -> (r: bool)
    ensures
        r <==> first_index(list@, address_is(a@)) >= 0,
{
    proof {
        lemma_first_index(list@, address_is(a@));
    }
    let mut i: usize = 0;
    while i < list.len()
        invariant
            0 <= i <= list.len(),
            forall|j: int| 0 <= j < i ==> !address_is(a@)(#[trigger] list@[j]),
        decreases list.len() - i,
    {
        if list[i].same(a) {
            proof {
                lemma_first_index_at(list@, address_is(a@), i as int);
            }
            return true;
        }
        i = i + 1;
    }
    proof {
        lemma_first_index_none(list@, address_is(a@));
    }
    false
}

pub(crate) fn find_escrow(es: &Vec<EscrowState>, mint: &Address) -> (r: Option<usize>)
    ensures
        r is Some <==> first_index(es@, mint_is(mint@)) >= 0,
        r is Some ==> r->Some_0 == first_index(es@, mint_is(mint@)) && r->Some_0 < es@.len(),
{
    proof {
        lemma_first_index(es@, mint_is(mint@));
    }
    let mut i: usize = 0;
    while i < es.len()
        invariant
            0 <= i <= es.len(),
            forall|j: int| 0 <= j < i ==> !mint_is(mint@)(#[trigger] es@[j]),
        decreases es.len() - i,
    {
        if es[i].mint.same(mint) {
            proof {
                lemma_first_index_at(es@, mint_is(mint@), i as int);
            }
            return Some(i);
        }
        i = i + 1;
    }
    None
}

} // verus!
