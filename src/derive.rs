//! Deterministic, keyless authority addresses (program-derived addresses).
//!
//! A vault has no private key: its authority is an address derived from
//! seed material and a one-byte bump. Whoever reproduces the same
//! derivation may move the vault's assets.
use vstd::prelude::*;

use anchor_lang::solana_program::pubkey::Pubkey;

use crate::address::Address;
use crate::state::ErrorCode;

verus! {

/// The address derived from `seeds` for `program`, or `None` where the
/// derivation lands on the curve or the seeds are too long.
pub uninterp spec fn program_address(seeds: Seq<Seq<u8>>, program: Seq<u8>) -> Option<Seq<u8>>;

pub open spec fn seed_views(seeds: Seq<Vec<u8>>) -> Seq<Seq<u8>> {
    seeds.map_values(|s: Vec<u8>| s@)
}

pub open spec fn with_bump(seeds: Seq<Seq<u8>>, bump: u8) -> Seq<Seq<u8>> {
    seeds.push(seq![bump])
}

/// `"user_state"`
pub open spec fn user_tag() -> Seq<u8> {
    seq![117u8, 115, 101, 114, 95, 115, 116, 97, 116, 101]
}

/// `"swap_state"`
pub open spec fn swap_tag() -> Seq<u8> {
    seq![115u8, 119, 97, 112, 95, 115, 116, 97, 116, 101]
}

/// `"escrow"`
pub open spec fn escrow_tag() -> Seq<u8> {
    seq![101u8, 115, 99, 114, 111, 119]
}

pub open spec fn user_seeds(user: Seq<u8>) -> Seq<Seq<u8>> {
    seq![user_tag(), user]
}

pub open spec fn swap_seeds(offeror: Seq<u8>, offeree: Seq<u8>) -> Seq<Seq<u8>> {
    seq![swap_tag(), offeror, offeree]
}

/// A vault's seeds: the swap record it belongs to and its asset type.
pub open spec fn escrow_seeds(swap: Seq<u8>, mint: Seq<u8>) -> Seq<Seq<u8>> {
    seq![escrow_tag(), swap, mint]
}

/// Some bump from 1 to 255 gives `seeds` a derived address.
pub open spec fn derivable(seeds: Seq<Seq<u8>>, program: Seq<u8>) -> bool {
    exists|b: u8| 1 <= b && (#[trigger] program_address(with_bump(seeds, b), program)) is Some
}

/// Relies on `Pubkey::create_program_address`: the derived address depends
/// on the seeds and the program alone; an error (seeds too long, or an
/// on-curve hash) is reported as `None`.
#[verifier::external_body]
fn create_program_address(seeds: &Vec<Vec<u8>>, program: &Address) -> (r: Option<Address>)
    requires
        seeds@.len() <= 16,
        forall|i: int| 0 <= i < seeds@.len() ==> (#[trigger] seeds@[i])@.len() <= 32,
    ensures
        r is Some <==> program_address(seed_views(seeds@), program@) is Some,
        r is Some ==> program_address(seed_views(seeds@), program@) == Some(r->Some_0@),
{
    let parts: Vec<&[u8]> = seeds.iter().map(|s| s.as_slice()).collect();
    match Pubkey::create_program_address(&parts, &Pubkey::new_from_array(program.bytes)) {
        Ok(key) => Some(Address { bytes: key.to_bytes() }),
        Err(_) => None,
    }
}

/// Relies on `Pubkey::try_find_program_address`: it tries the bumps from 255
/// down to 1 with `Pubkey::create_program_address`; a found `(address, bump)`
/// is what that gives for the seeds with the bump appended, and `None` means
/// that no bump from 1 to 255 gives an address.
#[verifier::external_body]
fn try_find_program_address(seeds: &Vec<Vec<u8>>, program: &Address) -> (r: Option<(Address, u8)>)
    requires
        seeds@.len() <= 15,
        forall|i: int| 0 <= i < seeds@.len() ==> (#[trigger] seeds@[i])@.len() <= 32,
    ensures
        r is Some ==> 1 <= r->Some_0.1,
        r is Some ==> program_address(with_bump(seed_views(seeds@), r->Some_0.1), program@)
            == Some(r->Some_0.0@),
        r is None ==> forall|b: u8| 1 <= b ==> (#[trigger] program_address(with_bump(seed_views(seeds@), b), program@)) is None,
{
    let parts: Vec<&[u8]> = seeds.iter().map(|s| s.as_slice()).collect();
    match Pubkey::try_find_program_address(&parts, &Pubkey::new_from_array(program.bytes)) {
        Some((key, bump)) => Some((Address { bytes: key.to_bytes() }, bump)),
        None => None,
    }
}

fn address_bytes(a: &Address) -> (r: Vec<u8>)
    ensures
        r@ == a@,
{
    let mut r: Vec<u8> = Vec::new();
    let mut i: usize = 0;
    while i < 32
        invariant
            0 <= i <= 32,
            a@.len() == 32,
            r@ == a@.subrange(0, i as int),
        decreases 32 - i,
    {
        r.push(a.bytes[i]);
        i = i + 1;
        assert(r@ =~= a@.subrange(0, i as int));
    }
    assert(a@.subrange(0, 32) =~= a@);
    r
}

fn tagged_seeds(tag: Vec<u8>, first: &Address, second: Option<&Address>) -> (r: Vec<Vec<u8>>)
    requires
        tag@.len() <= 32,
    ensures
        r@.len() <= 3,
        forall|i: int| 0 <= i < r@.len() ==> (#[trigger] r@[i])@.len() <= 32,
        second is None ==> seed_views(r@) =~= seq![tag@, first@],
        second is Some ==> seed_views(r@) =~= seq![tag@, first@, second->Some_0@],
{
    let mut r: Vec<Vec<u8>> = Vec::new();
    r.push(tag);
    r.push(address_bytes(first));
    match second {
        Some(s) => r.push(address_bytes(s)),
        None => {},
    }
    proof {
        assert(first@.len() == 32);
        assert(second is Some ==> second->Some_0@.len() == 32);
    }
    r
}

fn push_bump(seeds: &mut Vec<Vec<u8>>, bump: u8)
    ensures
        final(seeds)@.len() == old(seeds)@.len() + 1,
        forall|i: int| 0 <= i < old(seeds)@.len() ==> (#[trigger] final(seeds)@[i]) == old(seeds)@[i],
        final(seeds)@.last()@.len() == 1,
        seed_views(final(seeds)@) =~= with_bump(seed_views(old(seeds)@), bump),
{
    let b: Vec<u8> = vec![bump];
    assert(b@ =~= seq![bump]);
    seeds.push(b);
    assert(seed_views(seeds@) =~= with_bump(seed_views(old(seeds)@), bump));
}

fn user_seed_vec(user: &Address) -> (r: Vec<Vec<u8>>)
    ensures
        r@.len() <= 3,
        forall|i: int| 0 <= i < r@.len() ==> (#[trigger] r@[i])@.len() <= 32,
        seed_views(r@) == user_seeds(user@),
{
    tagged_seeds(vec![117u8, 115, 101, 114, 95, 115, 116, 97, 116, 101], user, None)
}

fn swap_seed_vec(offeror: &Address, offeree: &Address) -> (r: Vec<Vec<u8>>)
    ensures
        r@.len() <= 3,
        forall|i: int| 0 <= i < r@.len() ==> (#[trigger] r@[i])@.len() <= 32,
        seed_views(r@) == swap_seeds(offeror@, offeree@),
{
    tagged_seeds(vec![115u8, 119, 97, 112, 95, 115, 116, 97, 116, 101], offeror, Some(offeree))
}

fn escrow_seed_vec(swap: &Address, mint: &Address) -> (r: Vec<Vec<u8>>)
    ensures
        r@.len() <= 3,
        forall|i: int| 0 <= i < r@.len() ==> (#[trigger] r@[i])@.len() <= 32,
        seed_views(r@) == escrow_seeds(swap@, mint@),
{
    tagged_seeds(vec![101u8, 115, 99, 114, 111, 119], swap, Some(mint))
}

/// Finds the identity entry address of `user` and its bump.
pub fn find_user_address(program_id: &Address, user: &Address) -> (r: Option<(Address, u8)>)
    ensures
        r is Some ==> program_address(with_bump(user_seeds(user@), r->Some_0.1), program_id@)
            == Some(r->Some_0.0@),
        r is None <==> !derivable(user_seeds(user@), program_id@),
{
    try_find_program_address(&user_seed_vec(user), program_id)
}

/// Finds the swap record address of the ordered pair and its bump.
pub fn find_swap_address(program_id: &Address, offeror: &Address, offeree: &Address) -> (r: Option<(Address, u8)>)
    ensures
        r is Some ==> program_address(
            with_bump(swap_seeds(offeror@, offeree@), r->Some_0.1),
            program_id@,
        ) == Some(r->Some_0.0@),
        r is None <==> !derivable(swap_seeds(offeror@, offeree@), program_id@),
{
    try_find_program_address(&swap_seed_vec(offeror, offeree), program_id)
}

/// Finds the address of the vault for one asset type of a swap record, and
/// its bump.
pub fn find_escrow_address(program_id: &Address, swap: &Address, mint: &Address) -> (r: Option<(Address, u8)>)
    ensures
        r is Some ==> program_address(
            with_bump(escrow_seeds(swap@, mint@), r->Some_0.1),
            program_id@,
        ) == Some(r->Some_0.0@),
        r is None <==> !derivable(escrow_seeds(swap@, mint@), program_id@),
{
    try_find_program_address(&escrow_seed_vec(swap, mint), program_id)
}

/// Re-derives a swap record's signing authority from the participant pair
/// and the bump, and compares it with the recorded address.
pub fn check_swap_authority(
    program_id: &Address,
    offeror: &Address,
    offeree: &Address,
    bump: u8,
    recorded: &Address,
) -> (r: Result<(), ErrorCode>)
    ensures
        r is Ok <==> program_address(with_bump(swap_seeds(offeror@, offeree@), bump), program_id@)
            == Some(recorded@),
        r is Err ==> r == Err::<(), ErrorCode>(ErrorCode::AuthorityMismatch),
{
    let mut seeds = swap_seed_vec(offeror, offeree);
    push_bump(&mut seeds, bump);
    match create_program_address(&seeds, program_id) {
        Some(a) => {
            if a.same(recorded) {
                Ok(())
            } else {
                Err(ErrorCode::AuthorityMismatch)
            }
        },
        None => Err(ErrorCode::AuthorityMismatch),
    }
}

/// Re-derives a vault's address from its swap record, the asset type and
/// the bump, and compares it with the recorded address.
pub fn check_escrow_authority(
    program_id: &Address,
    swap: &Address,
    mint: &Address,
    bump: u8,
    recorded: &Address,
) -> (r: Result<(), ErrorCode>)
    ensures
        r is Ok <==> program_address(with_bump(escrow_seeds(swap@, mint@), bump), program_id@)
            == Some(recorded@),
        r is Err ==> r == Err::<(), ErrorCode>(ErrorCode::AuthorityMismatch),
{
    let mut seeds = escrow_seed_vec(swap, mint);
    push_bump(&mut seeds, bump);
    match create_program_address(&seeds, program_id) {
        Some(a) => {
            if a.same(recorded) {
                Ok(())
            } else {
                Err(ErrorCode::AuthorityMismatch)
            }
        },
        None => Err(ErrorCode::AuthorityMismatch),
    }
}

} // verus!
