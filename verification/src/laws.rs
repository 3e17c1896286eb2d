//! The registry's global laws, stated and proved once over every
//! well-formed state. Each operation's contract shows it preserves
//! [`Pallet::wf`], so these hold in every reachable state; a rejected
//! operation additionally leaves the state identical, which each
//! operation states in the error arm of its own contract.

use vstd::prelude::*;

use crate::registry::{id_in, Pallet};
use crate::types::{AccountId, MAX_OWNED};

verus! {

/// Law: the registry counter always equals the number of live assets.
pub proof fn lemma_counter_matches_assets(s: Pallet)
    requires
        s.wf(),
    ensures
        s.count_for_kitties == s.kitties@.len(),
{
}

/// Law: every live asset's identifier is listed under its owner, and
/// under no other account.
pub proof fn lemma_owned_exactly_by_owner(s: Pallet, i: int)
    requires
        s.wf(),
        0 <= i < s.kitties@.len(),
    ensures
        id_in(s.owned(s.kitties@[i].owner), s.kitties@[i].dna@),
        forall|a: AccountId| a != s.kitties@[i].owner ==> !id_in(s.owned(a), s.kitties@[i].dna@),
{
    let d = s.kitties@[i].dna@;
    assert(id_in(s.owned(s.kitties@[i].owner), d));
    assert forall|a: AccountId| a != s.kitties@[i].owner implies !id_in(s.owned(a), d) by {
        if id_in(s.owned(a), d) {
            let j = choose|j: int| 0 <= j < s.owned(a).len() && s.owned(a)[j]@ == d;
            assert(s.entry_exists(a));
            let ea = s.entry_index(a);
            assert(0 <= ea < s.kitties_owned@.len() && s.kitties_owned@[ea].account == a);
            assert(s.kitties_owned@[ea].ids@[j] == s.owned(a)[j]);
            assert(s.kitty_exists(d) && s.kitty(d).owner == a);
            s.lemma_kitty_index(i, d);
            assert(s.kitties@[i].owner == a);
        }
    }
}

/// Law: no account's holdings ever exceed the capacity bound.
pub proof fn lemma_holdings_bounded(s: Pallet, a: AccountId)
    requires
        s.wf(),
    ensures
        s.owned(a).len() <= MAX_OWNED,
{
    if s.entry_exists(a) {
        let ea = s.entry_index(a);
        assert(0 <= ea < s.kitties_owned@.len());
        assert(s.kitties_owned@[ea].ids@.len() <= MAX_OWNED);
    }
}

} // verus!
