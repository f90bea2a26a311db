//! The identity store: each participant's role and counterparty.
use vstd::prelude::*;

use crate::address::Address;
use crate::search::{first_index, lemma_first_index, lemma_first_index_same};
use crate::state::{UserEnum, UserState};

verus! {

pub open spec fn user_is(a: Seq<u8>) -> spec_fn(UserState) -> bool {
    |u: UserState| u.user@ == a
}

pub open spec fn role_in(users: Seq<UserState>, a: Seq<u8>) -> Option<UserEnum> {
    let i = first_index(users, user_is(a));
    if i >= 0 {
        Some(users[i].user_enum)
    } else {
        None
    }
}

pub open spec fn counterparty_in(users: Seq<UserState>, a: Seq<u8>) -> Option<Seq<u8>> {
    let i = first_index(users, user_is(a));
    if i >= 0 {
        Some(users[i].counter_party@)
    } else {
        None
    }
}

pub open spec fn reset(r: Option<UserEnum>) -> Option<UserEnum> {
    if r is Some {
        Some(UserEnum::NoRole)
    } else {
        None
    }
}

/// Sets the role and counterparty of a registered participant.
pub(crate) fn set_role(users: &mut Vec<UserState>, i: usize, a: &Address, role: UserEnum, counter_party: &Address)
    requires
        i == first_index(old(users)@, user_is(a@)),
        i < old(users)@.len(),
    ensures
        role_in(final(users)@, a@) == Some(role),
        counterparty_in(final(users)@, a@) == Some(counter_party@),
        forall|b: Seq<u8>| b != a@ ==> #[trigger] role_in(final(users)@, b) == role_in(old(users)@, b),
        forall|b: Seq<u8>| b != a@ ==> #[trigger] counterparty_in(final(users)@, b) == counterparty_in(old(users)@, b),
{
    let ghost pre = users@;
    let e = UserState { user_enum: role, counter_party: *counter_party, ..users[i] };
    users.set(i, e);
    proof {
        assert forall|b: Seq<u8>| #[trigger] first_index(users@, user_is(b)) == first_index(pre, user_is(b)) by {
            assert forall|j: int| 0 <= j < pre.len() implies user_is(b)(#[trigger] pre[j]) == user_is(b)(users@[j]) by {}
            lemma_first_index_same(pre, users@, user_is(b));
        }
        assert forall|b: Seq<u8>| b != a@ implies #[trigger] role_in(users@, b) == role_in(pre, b) by {
            lemma_first_index(pre, user_is(b));
            lemma_first_index(pre, user_is(a@));
        }
        assert forall|b: Seq<u8>| b != a@ implies #[trigger] counterparty_in(users@, b) == counterparty_in(pre, b) by {
            lemma_first_index(pre, user_is(b));
            lemma_first_index(pre, user_is(a@));
        }
    }
}

} // verus!
