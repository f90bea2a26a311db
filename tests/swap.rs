use bsl_swap::address::Address;
use bsl_swap::derive::{check_escrow_authority, check_swap_authority, find_escrow_address, find_swap_address, find_user_address};
use bsl_swap::ledger::Ledger;
use bsl_swap::program::SwapProgram;
use bsl_swap::state::{CloseEscrowEnum, ErrorCode, SwapStage, UserEnum};

fn addr(n: u8) -> Address {
    Address::new([n; 32])
}

fn program_id() -> Address {
    let mut b = [0u8; 32];
    for (i, x) in b.iter_mut().enumerate() {
        *x = (i as u8).wrapping_mul(37).wrapping_add(11);
    }
    Address::new(b)
}

const A: u8 = 1;
const B: u8 = 2;
const C: u8 = 3;
const X: u8 = 10;
const Y: u8 = 11;
const Z: u8 = 12;

/// A and B registered; A holds one X, B holds one Y.
fn setup() -> SwapProgram {
    let mut ledger = Ledger::new();
    ledger.credit(&addr(A), &addr(X), 1).unwrap();
    ledger.credit(&addr(B), &addr(Y), 1).unwrap();
    let mut p = SwapProgram::new(program_id(), ledger);
    p.initialize_user_state(&addr(A)).unwrap();
    p.initialize_user_state(&addr(B)).unwrap();
    p
}

/// A offers one X for B's one Y and initiates; returns the swap address.
fn proposed(p: &mut SwapProgram) -> Address {
    p.initialize_swap_state(&addr(A), &addr(B)).unwrap();
    p.initialize_escrow(&addr(A), &addr(B), &addr(X), 1).unwrap();
    p.add_mint_offeree(&addr(A), &addr(B), &addr(Y)).unwrap();
    p.initiate_swap(&addr(A), &addr(B)).unwrap();
    let i = p.live_pair_record(&addr(A), &addr(B)).unwrap();
    p.swaps[i].address
}

fn bal(p: &SwapProgram, owner: u8, mint: u8) -> u64 {
    p.ledger.balance_of(&addr(owner), &addr(mint))
}

#[test]
fn user_enum_codes_round_trip() {
    for r in [UserEnum::Offeror, UserEnum::Offeree, UserEnum::NoRole] {
        assert_eq!(UserEnum::from(r.to_code()), Ok(r));
    }
    assert_eq!(UserEnum::Offeror.to_code(), 1);
    assert_eq!(UserEnum::Offeree.to_code(), 2);
    assert_eq!(UserEnum::NoRole.to_code(), 3);
    assert_eq!(UserEnum::from(0), Err(ErrorCode::InvalidRole));
    assert_eq!(UserEnum::from(4), Err(ErrorCode::InvalidRole));
}

#[test]
fn close_escrow_enum_codes_round_trip() {
    assert_eq!(CloseEscrowEnum::Cancel.to_code(), 1);
    assert_eq!(CloseEscrowEnum::Accept.to_code(), 2);
    assert_eq!(CloseEscrowEnum::from(1), Ok(CloseEscrowEnum::Cancel));
    assert_eq!(CloseEscrowEnum::from(2), Ok(CloseEscrowEnum::Accept));
    assert_eq!(CloseEscrowEnum::from(3), Err(ErrorCode::InvalidCloseKind));
}

#[test]
fn register_twice_fails() {
    let mut p = setup();
    assert_eq!(p.user_role(&addr(A)), Some(UserEnum::NoRole));
    assert_eq!(p.user_role(&addr(C)), None);
    assert_eq!(p.initialize_user_state(&addr(A)), Err(ErrorCode::AlreadyExists));
    assert_eq!(p.users.len(), 2);
}

#[test]
fn accept_swaps_both_assets() {
    let mut p = setup();
    let swap = proposed(&mut p);
    assert_eq!(bal(&p, A, X), 0);
    assert_eq!(p.user_role(&addr(A)), Some(UserEnum::Offeror));
    assert_eq!(p.user_role(&addr(B)), Some(UserEnum::Offeree));
    p.accept_leg_a(&addr(B), &swap, &addr(A), &addr(B)).unwrap();
    p.accept_leg_b(&addr(B), &swap, &addr(A), &addr(B)).unwrap();
    assert_eq!(bal(&p, A, Y), 1);
    assert_eq!(bal(&p, A, X), 0);
    assert_eq!(bal(&p, B, X), 1);
    assert_eq!(bal(&p, B, Y), 0);
    assert_eq!(p.user_role(&addr(A)), Some(UserEnum::NoRole));
    assert_eq!(p.user_role(&addr(B)), Some(UserEnum::NoRole));
    assert_eq!(p.swaps[0].stage, SwapStage::Accepted);
    assert!(p.swaps[0].escrows[0].closed);
    assert_eq!(p.swaps[0].escrows[0].amount, 0);
    assert_eq!(p.reconcile(&swap), Ok(()));
}

#[test]
fn single_accept_swaps_both_assets() {
    let mut p = setup();
    let swap = proposed(&mut p);
    p.accept_swap(&addr(B), &swap, &addr(A), &addr(B)).unwrap();
    assert_eq!(bal(&p, A, Y), 1);
    assert_eq!(bal(&p, B, X), 1);
    assert_eq!(p.user_role(&addr(A)), Some(UserEnum::NoRole));
    assert_eq!(p.user_role(&addr(B)), Some(UserEnum::NoRole));
    assert!(p.swaps[0].escrows[0].closed);
}

#[test]
fn single_accept_without_payment_changes_nothing() {
    let mut p = setup();
    let swap = proposed(&mut p);
    p.ledger.debit(&addr(B), &addr(Y), 1).unwrap();
    assert_eq!(p.accept_swap(&addr(B), &swap, &addr(A), &addr(B)), Err(ErrorCode::InsufficientBalance));
    assert_eq!(bal(&p, B, X), 0);
    assert_eq!(p.swaps[0].escrows[0].amount, 1);
    assert_eq!(p.swaps[0].stage, SwapStage::Proposed);
}

#[test]
fn cancel_returns_escrow_to_offeror() {
    let mut p = setup();
    let swap = proposed(&mut p);
    p.cancel_swap(&addr(A), &swap, &addr(A), &addr(B)).unwrap();
    assert_eq!(bal(&p, A, X), 1);
    assert_eq!(bal(&p, B, X), 0);
    assert_eq!(bal(&p, B, Y), 1);
    assert!(p.swaps[0].escrows[0].closed);
    assert_eq!(p.swaps[0].escrows[0].amount, 0);
    assert_eq!(p.swaps[0].stage, SwapStage::Cancelled);
    assert_eq!(p.user_role(&addr(A)), Some(UserEnum::NoRole));
    assert_eq!(p.user_role(&addr(B)), Some(UserEnum::NoRole));
}

#[test]
fn cancel_by_third_party_is_unauthorized() {
    let mut p = setup();
    let swap = proposed(&mut p);
    assert_eq!(p.cancel_swap(&addr(C), &swap, &addr(A), &addr(B)), Err(ErrorCode::Unauthorized));
    assert_eq!(p.swaps[0].stage, SwapStage::Proposed);
    assert_eq!(p.swaps[0].escrows[0].amount, 1);
    assert!(!p.swaps[0].escrows[0].closed);
    assert_eq!(bal(&p, A, X), 0);
    assert_eq!(p.user_role(&addr(A)), Some(UserEnum::Offeror));
}

#[test]
fn cancel_with_substituted_accounts_is_wrong_counterparty() {
    let mut p = setup();
    let swap = proposed(&mut p);
    assert_eq!(p.cancel_swap(&addr(A), &swap, &addr(A), &addr(C)), Err(ErrorCode::WrongCounterparty));
    assert_eq!(p.cancel_swap(&addr(A), &addr(C), &addr(A), &addr(B)), Err(ErrorCode::SwapNotFound));
    assert_eq!(p.swaps[0].stage, SwapStage::Proposed);
}

#[test]
fn first_leg_alone_is_reported_as_partial_execution() {
    let mut p = setup();
    let swap = proposed(&mut p);
    p.accept_leg_a(&addr(B), &swap, &addr(A), &addr(B)).unwrap();
    assert_eq!(bal(&p, B, X), 1);
    assert_eq!(bal(&p, A, Y), 0);
    assert_eq!(p.reconcile(&swap), Err(ErrorCode::PartialExecutionInconsistency));
}

#[test]
fn legs_run_in_order_only() {
    let mut p = setup();
    let swap = proposed(&mut p);
    assert_eq!(p.accept_leg_b(&addr(B), &swap, &addr(A), &addr(B)), Err(ErrorCode::InvalidStage));
    assert_eq!(p.accept_leg_a(&addr(A), &swap, &addr(A), &addr(B)), Err(ErrorCode::Unauthorized));
    p.accept_leg_a(&addr(B), &swap, &addr(A), &addr(B)).unwrap();
    assert_eq!(p.accept_leg_a(&addr(B), &swap, &addr(A), &addr(B)), Err(ErrorCode::InvalidStage));
    assert_eq!(p.cancel_swap(&addr(A), &swap, &addr(A), &addr(B)), Err(ErrorCode::InvalidStage));
    p.accept_leg_b(&addr(B), &swap, &addr(A), &addr(B)).unwrap();
    assert_eq!(p.accept_leg_b(&addr(B), &swap, &addr(A), &addr(B)), Err(ErrorCode::SwapNotFound));
}

#[test]
fn fund_then_cancel_restores_balance_repeatedly() {
    let mut p = setup();
    p.ledger.credit(&addr(A), &addr(X), 4).unwrap();
    for _ in 0..3 {
        p.initialize_swap_state(&addr(A), &addr(B)).unwrap();
        let i = p.live_pair_record(&addr(A), &addr(B)).unwrap();
        let swap = p.swaps[i].address;
        p.initialize_escrow(&addr(A), &addr(B), &addr(X), 3).unwrap();
        assert_eq!(bal(&p, A, X), 2);
        p.initiate_swap(&addr(A), &addr(B)).unwrap();
        p.cancel_swap(&addr(A), &swap, &addr(A), &addr(B)).unwrap();
        assert_eq!(bal(&p, A, X), 5);
    }
    assert_eq!(p.swaps.len(), 3);
}

#[test]
fn one_open_swap_per_pair() {
    let mut p = setup();
    p.initialize_swap_state(&addr(A), &addr(B)).unwrap();
    assert_eq!(p.initialize_swap_state(&addr(A), &addr(B)), Err(ErrorCode::AlreadyExists));
    p.initialize_swap_state(&addr(B), &addr(A)).unwrap();
    assert_eq!(p.initialize_swap_state(&addr(A), &addr(A)), Err(ErrorCode::WrongCounterparty));
    let swap = p.swaps[0].address;
    p.initiate_swap(&addr(A), &addr(B)).unwrap();
    p.cancel_swap(&addr(A), &swap, &addr(A), &addr(B)).unwrap();
    p.initialize_swap_state(&addr(A), &addr(B)).unwrap();
    assert_eq!(p.swaps.len(), 3);
}

#[test]
fn initiate_rejects_busy_or_unknown_participants() {
    let mut p = setup();
    p.initialize_user_state(&addr(C)).unwrap();
    proposed(&mut p);
    p.initialize_swap_state(&addr(C), &addr(B)).unwrap();
    assert_eq!(p.initiate_swap(&addr(C), &addr(B)), Err(ErrorCode::ParticipantBusy));
    p.initialize_swap_state(&addr(C), &addr(Z)).unwrap();
    assert_eq!(p.initiate_swap(&addr(C), &addr(Z)), Err(ErrorCode::NotRegistered));
    assert_eq!(p.user_role(&addr(C)), Some(UserEnum::NoRole));
}

#[test]
fn funding_errors() {
    let mut p = setup();
    assert_eq!(p.initialize_escrow(&addr(A), &addr(B), &addr(X), 1), Err(ErrorCode::SwapNotFound));
    p.initialize_swap_state(&addr(A), &addr(B)).unwrap();
    assert_eq!(p.initialize_escrow(&addr(A), &addr(B), &addr(X), 2), Err(ErrorCode::InsufficientBalance));
    assert_eq!(p.initialize_escrow(&addr(A), &addr(B), &addr(Z), 1), Err(ErrorCode::InsufficientBalance));
    p.initialize_escrow_state(&addr(A), &addr(B), &addr(X)).unwrap();
    assert_eq!(p.initialize_escrow_state(&addr(A), &addr(B), &addr(X)), Err(ErrorCode::AlreadyExists));
    p.initialize_escrow(&addr(A), &addr(B), &addr(X), 1).unwrap();
    assert_eq!(p.swaps[0].escrows.len(), 1);
    assert_eq!(p.swaps[0].escrows[0].amount, 1);
    p.add_mint_offeree(&addr(A), &addr(B), &addr(Y)).unwrap();
    assert_eq!(p.add_mint_offeree(&addr(A), &addr(B), &addr(Y)), Err(ErrorCode::AlreadyExists));
    p.initiate_swap(&addr(A), &addr(B)).unwrap();
    assert_eq!(p.initialize_escrow(&addr(A), &addr(B), &addr(X), 0), Err(ErrorCode::InvalidStage));
    assert_eq!(p.add_mint_offeree(&addr(A), &addr(B), &addr(Z)), Err(ErrorCode::InvalidStage));
}

#[test]
fn multi_asset_swap() {
    let mut p = setup();
    p.ledger.credit(&addr(A), &addr(Z), 7).unwrap();
    p.ledger.credit(&addr(B), &addr(X), 2).unwrap();
    p.initialize_swap_state(&addr(A), &addr(B)).unwrap();
    p.initialize_escrow(&addr(A), &addr(B), &addr(X), 1).unwrap();
    p.initialize_escrow(&addr(A), &addr(B), &addr(Z), 7).unwrap();
    assert_eq!(p.initialize_escrow(&addr(A), &addr(B), &addr(Z), 0), Err(ErrorCode::AlreadyExists));
    assert_eq!(bal(&p, A, Z), 0);
    assert_eq!(p.swaps[0].escrows.len(), 2);
    assert_eq!(p.swaps[0].escrows[1].amount, 7);
    p.add_mint_offeree(&addr(A), &addr(B), &addr(Y)).unwrap();
    p.initiate_swap(&addr(A), &addr(B)).unwrap();
    let swap = p.swaps[0].address;
    p.accept_leg_a(&addr(B), &swap, &addr(A), &addr(B)).unwrap();
    p.accept_leg_b(&addr(B), &swap, &addr(A), &addr(B)).unwrap();
    assert_eq!(bal(&p, B, X), 3);
    assert_eq!(bal(&p, B, Z), 7);
    assert_eq!(bal(&p, A, Z), 0);
    assert_eq!(bal(&p, A, Y), 1);
}

#[test]
fn ledger_limits() {
    let mut l = Ledger::new();
    assert_eq!(l.balance_of(&addr(A), &addr(X)), 0);
    l.credit(&addr(A), &addr(X), u64::MAX).unwrap();
    assert_eq!(l.credit(&addr(A), &addr(X), 1), Err(ErrorCode::Overflow));
    assert_eq!(l.debit(&addr(B), &addr(X), 1), Err(ErrorCode::InsufficientBalance));
    l.debit(&addr(A), &addr(X), 5).unwrap();
    assert_eq!(l.balance_of(&addr(A), &addr(X)), u64::MAX - 5);
    assert_eq!(l.balance_of(&addr(A), &addr(Y)), 0);
}

#[test]
fn cancel_overflow_changes_nothing() {
    let mut p = setup();
    let swap = proposed(&mut p);
    p.ledger.credit(&addr(A), &addr(X), u64::MAX).unwrap();
    assert_eq!(p.cancel_swap(&addr(A), &swap, &addr(A), &addr(B)), Err(ErrorCode::Overflow));
    assert_eq!(p.swaps[0].escrows[0].amount, 1);
    assert_eq!(bal(&p, A, X), u64::MAX);
}

#[test]
fn rederived_authority_must_match() {
    let pid = program_id();
    let (swap, bump) = find_swap_address(&pid, &addr(A), &addr(B)).unwrap();
    assert!(swap.bytes != addr(A).bytes && swap.bytes != pid.bytes);
    assert_eq!(check_swap_authority(&pid, &addr(A), &addr(B), bump, &swap), Ok(()));
    for wrong in 0..=255u8 {
        if wrong != bump {
            assert_eq!(check_swap_authority(&pid, &addr(A), &addr(B), wrong, &swap), Err(ErrorCode::AuthorityMismatch));
        }
    }
    assert_eq!(check_swap_authority(&pid, &addr(B), &addr(A), bump, &swap), Err(ErrorCode::AuthorityMismatch));
    assert_eq!(check_swap_authority(&pid, &addr(A), &addr(C), bump, &swap), Err(ErrorCode::AuthorityMismatch));
    let (vault, vbump) = find_escrow_address(&pid, &swap, &addr(X)).unwrap();
    assert_eq!(check_escrow_authority(&pid, &swap, &addr(X), vbump, &vault), Ok(()));
    assert_eq!(check_escrow_authority(&pid, &swap, &addr(Y), vbump, &vault), Err(ErrorCode::AuthorityMismatch));
    assert_eq!(check_escrow_authority(&pid, &addr(A), &addr(X), vbump, &vault), Err(ErrorCode::AuthorityMismatch));
    assert!(vault.bytes != swap.bytes);
}

#[test]
fn swap_record_uses_derived_address() {
    let mut p = setup();
    let swap = proposed(&mut p);
    let (expected, bump) = find_swap_address(&program_id(), &addr(A), &addr(B)).unwrap();
    assert_eq!(swap.bytes, expected.bytes);
    assert_eq!(p.swaps[0].swap_state_bump, bump);
    let (vault, _) = find_escrow_address(&program_id(), &swap, &addr(X)).unwrap();
    assert_eq!(p.swaps[0].escrows[0].escrow.bytes, vault.bytes);
}

#[test]
fn cancel_before_initiate_is_refused() {
    let mut p = setup();
    p.initialize_swap_state(&addr(A), &addr(B)).unwrap();
    p.initialize_escrow(&addr(A), &addr(B), &addr(X), 1).unwrap();
    let swap = p.swaps[0].address;
    assert_eq!(p.cancel_swap(&addr(A), &swap, &addr(A), &addr(B)), Err(ErrorCode::InvalidStage));
    assert_eq!(bal(&p, A, X), 0);
    assert_eq!(p.swaps[0].escrows[0].amount, 1);
    assert_eq!(p.swaps[0].stage, SwapStage::Funding);
}

#[test]
fn second_leg_without_payment_is_insufficient_balance() {
    let mut p = setup();
    let swap = proposed(&mut p);
    p.accept_leg_a(&addr(B), &swap, &addr(A), &addr(B)).unwrap();
    p.ledger.debit(&addr(B), &addr(Y), 1).unwrap();
    p.ledger.credit(&addr(A), &addr(Y), u64::MAX).unwrap();
    assert_eq!(p.accept_leg_b(&addr(B), &swap, &addr(A), &addr(B)), Err(ErrorCode::InsufficientBalance));
    assert_eq!(p.swaps[0].stage, SwapStage::EscrowReleased);
    p.ledger.credit(&addr(B), &addr(Y), 1).unwrap();
    assert_eq!(p.accept_leg_b(&addr(B), &swap, &addr(A), &addr(B)), Err(ErrorCode::Overflow));
}

#[test]
fn registration_stores_a_rederivable_bump() {
    let p = setup();
    assert_eq!(p.users.len(), 2);
    assert_eq!(p.users[0].user.bytes, addr(A).bytes);
    assert_eq!(p.users[0].user_enum, UserEnum::NoRole);
    let (_, bump) = find_user_address(&program_id(), &addr(A)).unwrap();
    assert_eq!(p.users[0].bump, bump);
    assert!(bump >= 1);
}
