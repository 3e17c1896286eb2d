//! The registry state machine: asset store, ownership index, counter, and
//! the four operations that mutate them.

use vstd::prelude::*;

use crate::dna::{gen_dna, spec_gen_dna};
use crate::types::{AccountId, Balance, Error, Event, Kitty, OwnedEntry, MAX_OWNED};

verus! {

/// Does `dna` occur among the identifiers `ids`?
pub open spec fn id_in(ids: Seq<[u8; 32]>, dna: Seq<u8>) -> bool {
    exists|j: int| 0 <= j < ids.len() && ids[j]@ == dna
}

/// The position of `dna` within `ids` (meaningful when `id_in` holds and
/// the identifiers in `ids` are distinct).
pub open spec fn id_pos(ids: Seq<[u8; 32]>, dna: Seq<u8>) -> int {
    choose|j: int| 0 <= j < ids.len() && ids[j]@ == dna
}

/// The whole persistent state of the registry.
///
/// `kitties` is the asset store, in order of creation; `kitties_owned` is
/// the ownership index, one entry per account that has ever owned an asset;
/// `count_for_kitties` is the registry counter. All reachable states satisfy
/// [`Pallet::wf`].
#[derive(Clone, Debug, PartialEq, Eq)]
pub struct Pallet {
    pub count_for_kitties: u32,
    pub kitties: Vec<Kitty>,
    pub kitties_owned: Vec<OwnedEntry>,
}

impl Pallet {
    /// Is there a live asset with identifier `dna`?
    pub open spec fn kitty_exists(self, dna: Seq<u8>) -> bool {
        exists|i: int| 0 <= i < self.kitties@.len() && self.kitties@[i].dna@ == dna
    }

    /// Index of the asset with identifier `dna` in the store (meaningful
    /// when `kitty_exists` holds; unique under `kitties_unique`).
    pub open spec fn kitty_index(self, dna: Seq<u8>) -> int {
        choose|i: int| 0 <= i < self.kitties@.len() && self.kitties@[i].dna@ == dna
    }

    /// The asset record with identifier `dna`.
    pub open spec fn kitty(self, dna: Seq<u8>) -> Kitty {
        self.kitties@[self.kitty_index(dna)]
    }

    /// Does the ownership index hold an entry for `who`?
    pub open spec fn entry_exists(self, who: AccountId) -> bool {
        exists|e: int| 0 <= e < self.kitties_owned@.len() && self.kitties_owned@[e].account == who
    }

    /// Index of `who`'s entry in the ownership index (meaningful when
    /// `entry_exists` holds; unique under `accounts_unique`).
    pub open spec fn entry_index(self, who: AccountId) -> int {
        choose|e: int| 0 <= e < self.kitties_owned@.len() && self.kitties_owned@[e].account == who
    }

    /// The identifiers currently indexed under `who`, in acquisition order;
    /// empty for an account that never owned anything.
    pub open spec fn owned(self, who: AccountId) -> Seq<[u8; 32]> {
        if self.entry_exists(who) {
            self.kitties_owned@[self.entry_index(who)].ids@
        } else {
            Seq::<[u8; 32]>::empty()
        }
    }

    /// The counter equals the number of live assets.
    pub open spec fn counter_ok(self) -> bool {
        self.count_for_kitties == self.kitties@.len()
    }

    /// No two live assets share an identifier.
    pub open spec fn kitties_unique(self) -> bool {
        forall|i: int, j: int|
            0 <= i < j < self.kitties@.len() ==> self.kitties@[i].dna@ != self.kitties@[j].dna@
    }

    /// No two entries of the ownership index belong to the same account.
    pub open spec fn accounts_unique(self) -> bool {
        forall|e: int, f: int|
            0 <= e < f < self.kitties_owned@.len()
                ==> self.kitties_owned@[e].account != self.kitties_owned@[f].account
    }

    /// No entry of the ownership index exceeds the per-account capacity.
    pub open spec fn entries_bounded(self) -> bool {
        forall|e: int|
            0 <= e < self.kitties_owned@.len()
                ==> #[trigger] self.kitties_owned@[e].ids@.len() <= MAX_OWNED
    }

    /// Within one entry, no identifier is listed twice.
    pub open spec fn entry_ids_unique(self) -> bool {
        forall|e: int, j1: int, j2: int|
            0 <= e < self.kitties_owned@.len() && 0 <= j1 < j2 < self.kitties_owned@[e].ids@.len()
                ==> self.kitties_owned@[e].ids@[j1]@ != self.kitties_owned@[e].ids@[j2]@
    }

    /// Every identifier listed in the ownership index names a live asset
    /// whose owner is the entry's account.
    pub open spec fn owned_backed(self) -> bool {
        forall|e: int, j: int| #![trigger self.kitties_owned@[e].ids@[j]]
            0 <= e < self.kitties_owned@.len() && 0 <= j < self.kitties_owned@[e].ids@.len()
                ==> self.kitty_exists(self.kitties_owned@[e].ids@[j]@) && self.kitty(
                self.kitties_owned@[e].ids@[j]@,
            ).owner == self.kitties_owned@[e].account
    }

    /// Every live asset is listed in the ownership index under its owner.
    pub open spec fn kitties_indexed(self) -> bool {
        forall|i: int| #![trigger self.kitties@[i]]
            0 <= i < self.kitties@.len()
                ==> self.entry_exists(self.kitties@[i].owner) && id_in(
                self.owned(self.kitties@[i].owner),
                self.kitties@[i].dna@,
            )
    }

    /// Well-formedness: the invariants that every reachable state satisfies.
    /// [`Pallet::new`] establishes it and each operation preserves it.
    pub open spec fn wf(self) -> bool {
        &&& self.counter_ok()
        &&& self.kitties_unique()
        &&& self.accounts_unique()
        &&& self.entries_bounded()
        &&& self.entry_ids_unique()
        &&& self.owned_backed()
        &&& self.kitties_indexed()
    }

    /// The empty registry.
    pub fn new() -> (s: Pallet)
        ensures
            s.wf(),
            s.count_for_kitties == 0,
            s.kitties@ == Seq::<Kitty>::empty(),
            s.kitties_owned@ == Seq::<OwnedEntry>::empty(),
    {
        Pallet { count_for_kitties: 0, kitties: Vec::new(), kitties_owned: Vec::new() }
    }
}

/// Validation of a mint request, with the checks in the order the
/// operation performs them.
pub open spec fn spec_mint_check(s: Pallet, who: AccountId, dna: [u8; 32]) -> Result<(), Error> {
    if s.kitty_exists(dna@) {
        Err(Error::DuplicateKitty)
    } else if s.count_for_kitties == u32::MAX {
        Err(Error::TooManyKitties)
    } else if s.owned(who).len() >= MAX_OWNED {
        Err(Error::TooManyOwned)
    } else {
        Ok(())
    }
}

/// State change of a successful mint: the new asset is appended to the
/// store unlisted and owned by `who`, `who`'s index entry gains its
/// identifier, every other account's holdings are untouched, and the
/// counter goes up by one.
pub open spec fn mint_ok_post(pre: Pallet, post: Pallet, who: AccountId, dna: [u8; 32]) -> bool {
    &&& post.kitties@ == pre.kitties@.push(Kitty { dna, owner: who, price: None })
    &&& post.count_for_kitties == pre.count_for_kitties + 1
    &&& post.owned(who) == pre.owned(who).push(dna)
    &&& forall|a: AccountId| a != who ==> post.owned(a) == pre.owned(a)
}

/// Byte-for-byte equality of two identifiers.
fn dna_eq(a: &[u8; 32], b: &[u8; 32]) -> (r: bool)
    ensures
        r == (a@ == b@),
{
    let mut i: usize = 0;
    while i < 32
        invariant
            i <= 32,
            forall|k: int| 0 <= k < i ==> a@[k] == b@[k],
        decreases 32 - i,
    {
        if a[i] != b[i] {
            assert(a@[i as int] != b@[i as int]);
            return false;
        }
        i += 1;
    }
    proof {
        assert(a@ =~= b@);
    }
    true
}

impl Pallet {
    /// Look up the store index of the asset with identifier `dna`.
    fn find_kitty(&self, dna: &[u8; 32]) -> (r: Option<usize>)
        ensures
            match r {
                Some(i) => i < self.kitties@.len() && self.kitties@[i as int].dna@ == dna@,
                None => !self.kitty_exists(dna@),
            },
            r is Some <==> self.kitty_exists(dna@),
    {
        let n = self.kitties.len();
        let mut i: usize = 0;
        while i < n
            invariant
                n == self.kitties@.len(),
                i <= n,
                forall|k: int| 0 <= k < i ==> self.kitties@[k].dna@ != dna@,
            decreases n - i,
        {
            if dna_eq(&self.kitties[i].dna, dna) {
                return Some(i);
            }
            i += 1;
        }
        None
    }

    /// Look up the index of `who`'s entry in the ownership index.
    fn find_entry(&self, who: AccountId) -> (r: Option<usize>)
        ensures
            match r {
                Some(e) => e < self.kitties_owned@.len()
                    && self.kitties_owned@[e as int].account == who,
                None => !self.entry_exists(who),
            },
            r is Some <==> self.entry_exists(who),
    {
        let n = self.kitties_owned.len();
        let mut e: usize = 0;
        while e < n
            invariant
                n == self.kitties_owned@.len(),
                e <= n,
                forall|k: int| 0 <= k < e ==> self.kitties_owned@[k].account != who,
            decreases n - e,
        {
            if self.kitties_owned[e].account == who {
                return Some(e);
            }
            e += 1;
        }
        None
    }
}

/// Look up the position of `dna` within a list of identifiers.
fn find_in_ids(ids: &Vec<[u8; 32]>, dna: &[u8; 32]) -> (r: Option<usize>)
    ensures
        match r {
            Some(j) => j < ids@.len() && ids@[j as int]@ == dna@,
            None => !id_in(ids@, dna@),
        },
        r is Some <==> id_in(ids@, dna@),
{
    let n = ids.len();
    let mut j: usize = 0;
    while j < n
        invariant
            n == ids@.len(),
            j <= n,
            forall|k: int| 0 <= k < j ==> ids@[k]@ != dna@,
        decreases n - j,
    {
        if dna_eq(&ids[j], dna) {
            return Some(j);
        }
        j += 1;
    }
    None
}

impl Pallet {
    /// Under `kitties_unique`, a matching store index is *the* index.
    pub proof fn lemma_kitty_index(self, i: int, dna: Seq<u8>)
        requires
            self.kitties_unique(),
            0 <= i < self.kitties@.len(),
            self.kitties@[i].dna@ == dna,
        ensures
            self.kitty_exists(dna),
            self.kitty_index(dna) == i,
            self.kitty(dna) == self.kitties@[i],
    {
        assert(self.kitty_exists(dna));
        let w = self.kitty_index(dna);
        if w != i {
            if w < i {
                assert(self.kitties@[w].dna@ != self.kitties@[i].dna@);
            } else {
                assert(self.kitties@[i].dna@ != self.kitties@[w].dna@);
            }
        }
    }

    /// Under `accounts_unique`, a matching index entry is *the* entry.
    pub proof fn lemma_entry_index(self, e: int, who: AccountId)
        requires
            self.accounts_unique(),
            0 <= e < self.kitties_owned@.len(),
            self.kitties_owned@[e].account == who,
        ensures
            self.entry_exists(who),
            self.entry_index(who) == e,
            self.owned(who) == self.kitties_owned@[e].ids@,
    {
        assert(self.entry_exists(who));
        let w = self.entry_index(who);
        if w != e {
            if w < e {
                assert(self.kitties_owned@[w].account != self.kitties_owned@[e].account);
            } else {
                assert(self.kitties_owned@[e].account != self.kitties_owned@[w].account);
            }
        }
    }
}


/// If `d` occurs in `ids`, or is the pushed identifier, it occurs in
/// `ids.push(x)`.
proof fn lemma_id_in_push(ids: Seq<[u8; 32]>, x: [u8; 32], d: Seq<u8>)
    requires
        id_in(ids, d) || x@ == d,
    ensures
        id_in(ids.push(x), d),
{
    if id_in(ids, d) {
        let j = choose|j: int| 0 <= j < ids.len() && ids[j]@ == d;
        assert(ids.push(x)[j]@ == d);
    } else {
        assert(ids.push(x)[ids.len() as int]@ == d);
    }
}

/// Appending a new asset to the store does not change the lookup of any
/// identifier that already existed.
proof fn lemma_kitty_lookup_push(s0: Pallet, s1: Pallet, k: Kitty, d: Seq<u8>)
    requires
        s0.kitties_unique(),
        s1.kitties_unique(),
        s1.kitties@ == s0.kitties@.push(k),
        s0.kitty_exists(d),
    ensures
        s1.kitty_exists(d),
        s1.kitty(d) == s0.kitty(d),
{
    let i0 = s0.kitty_index(d);
    assert(0 <= i0 < s0.kitties@.len() && s0.kitties@[i0].dna@ == d);
    assert(s1.kitties@[i0] == s0.kitties@[i0]);
    s0.lemma_kitty_index(i0, d);
    s1.lemma_kitty_index(i0, d);
}

/// Appending a fresh asset and listing it in an existing index entry
/// preserves well-formedness and yields the mint postcondition.
proof fn lemma_mint_existing(s0: Pallet, s1: Pallet, who: AccountId, dna: [u8; 32], e: int)
    requires
        s0.wf(),
        !s0.kitty_exists(dna@),
        s0.count_for_kitties < u32::MAX,
        0 <= e < s0.kitties_owned@.len(),
        s0.kitties_owned@[e].account == who,
        s0.kitties_owned@[e].ids@.len() < MAX_OWNED,
        s1.kitties@ == s0.kitties@.push(Kitty { dna, owner: who, price: None }),
        s1.count_for_kitties == s0.count_for_kitties + 1,
        s1.kitties_owned@.len() == s0.kitties_owned@.len(),
        forall|f: int|
            0 <= f < s0.kitties_owned@.len() && f != e
                ==> s1.kitties_owned@[f] == s0.kitties_owned@[f],
        s1.kitties_owned@[e].account == who,
        s1.kitties_owned@[e].ids@ == s0.kitties_owned@[e].ids@.push(dna),
    ensures
        s1.wf(),
        mint_ok_post(s0, s1, who, dna),
{
    let k = Kitty { dna, owner: who, price: None };
    let kn = s0.kitties@.len() as int;
    let oldids = s0.kitties_owned@[e].ids@;

    assert forall|i: int, j: int| 0 <= i < j < s1.kitties@.len() implies s1.kitties@[i].dna@
        != s1.kitties@[j].dna@ by {
        assert(s1.kitties@[i] == s0.kitties@[i]);
        if j < kn {
            assert(s1.kitties@[j] == s0.kitties@[j]);
        } else {
            assert(s1.kitties@[j] == k);
            if s0.kitties@[i].dna@ == dna@ {
                assert(s0.kitty_exists(dna@));
            }
        }
    }
    assert(s1.kitties_unique());

    assert forall|f: int, g: int| 0 <= f < g < s1.kitties_owned@.len() implies
        s1.kitties_owned@[f].account != s1.kitties_owned@[g].account by {
        assert(s1.kitties_owned@[f].account == s0.kitties_owned@[f].account);
        assert(s1.kitties_owned@[g].account == s0.kitties_owned@[g].account);
    }
    assert(s1.accounts_unique());

    assert forall|f: int| 0 <= f < s1.kitties_owned@.len() implies #[trigger]
        s1.kitties_owned@[f].ids@.len() <= MAX_OWNED by {
        if f != e {
            assert(s1.kitties_owned@[f] == s0.kitties_owned@[f]);
            assert(s0.kitties_owned@[f].ids@.len() <= MAX_OWNED);
        }
    }
    assert(s1.entries_bounded());

    assert forall|f: int, j1: int, j2: int|
        0 <= f < s1.kitties_owned@.len() && 0 <= j1 < j2 < s1.kitties_owned@[f].ids@.len()
        implies s1.kitties_owned@[f].ids@[j1]@ != s1.kitties_owned@[f].ids@[j2]@ by {
        if f != e {
            assert(s1.kitties_owned@[f] == s0.kitties_owned@[f]);
            assert(s0.kitties_owned@[f].ids@[j1]@ != s0.kitties_owned@[f].ids@[j2]@);
        } else {
            assert(s1.kitties_owned@[e].ids@[j1] == oldids[j1]);
            if j2 < oldids.len() {
                assert(s1.kitties_owned@[e].ids@[j2] == oldids[j2]);
                assert(oldids[j1]@ != oldids[j2]@);
            } else {
                assert(s1.kitties_owned@[e].ids@[j2] == dna);
                assert(s0.kitties_owned@[e].ids@[j1] == oldids[j1]);
                assert(s0.kitty_exists(oldids[j1]@));
            }
        }
    }
    assert(s1.entry_ids_unique());

    s0.lemma_entry_index(e, who);
    s1.lemma_entry_index(e, who);
    assert(s1.owned(who) == s0.owned(who).push(dna));

    assert forall|a: AccountId| a != who implies s1.owned(a) == s0.owned(a) by {
        if s0.entry_exists(a) {
            let ea = choose|f: int|
                0 <= f < s0.kitties_owned@.len() && s0.kitties_owned@[f].account == a;
            s0.lemma_entry_index(ea, a);
            assert(ea != e);
            assert(s1.kitties_owned@[ea] == s0.kitties_owned@[ea]);
            s1.lemma_entry_index(ea, a);
        } else {
            assert(!s1.entry_exists(a)) by {
                if s1.entry_exists(a) {
                    let ea = choose|f: int|
                        0 <= f < s1.kitties_owned@.len() && s1.kitties_owned@[f].account == a;
                    assert(s1.kitties_owned@[ea].account == s0.kitties_owned@[ea].account);
                    assert(s0.entry_exists(a));
                }
            };
        }
    }

    assert forall|f: int, j: int| #![trigger s1.kitties_owned@[f].ids@[j]]
        0 <= f < s1.kitties_owned@.len() && 0 <= j < s1.kitties_owned@[f].ids@.len()
        implies s1.kitty_exists(s1.kitties_owned@[f].ids@[j]@)
            && s1.kitty(s1.kitties_owned@[f].ids@[j]@).owner == s1.kitties_owned@[f].account by {
        if f == e && j == oldids.len() {
            assert(s1.kitties_owned@[f].ids@[j] == dna);
            assert(s1.kitties@[kn] == k);
            s1.lemma_kitty_index(kn, dna@);
        } else {
            assert(s1.kitties_owned@[f].ids@[j] == s0.kitties_owned@[f].ids@[j]);
            assert(s1.kitties_owned@[f].account == s0.kitties_owned@[f].account);
            let d = s0.kitties_owned@[f].ids@[j]@;
            assert(s0.kitty_exists(d));
            assert(s0.kitty(d).owner == s0.kitties_owned@[f].account);
            lemma_kitty_lookup_push(s0, s1, k, d);
        }
    }
    assert(s1.owned_backed());

    assert forall|i: int| #![trigger s1.kitties@[i]] 0 <= i < s1.kitties@.len() implies
        s1.entry_exists(s1.kitties@[i].owner)
            && id_in(s1.owned(s1.kitties@[i].owner), s1.kitties@[i].dna@) by {
        if i < kn {
            assert(s1.kitties@[i] == s0.kitties@[i]);
            let a = s0.kitties@[i].owner;
            assert(s0.entry_exists(a));
            assert(id_in(s0.owned(a), s0.kitties@[i].dna@));
            if a == who {
                lemma_id_in_push(s0.owned(a), dna, s0.kitties@[i].dna@);
                assert(s1.entry_exists(who));
            } else {
                assert(s1.owned(a) == s0.owned(a));
                let ea = choose|f: int|
                    0 <= f < s0.kitties_owned@.len() && s0.kitties_owned@[f].account == a;
                assert(s1.kitties_owned@[ea].account == a);
                assert(s1.entry_exists(a));
            }
        } else {
            assert(s1.kitties@[i] == k);
            assert(s1.entry_exists(who));
            lemma_id_in_push(s0.owned(who), dna, dna@);
        }
    }
    assert(s1.kitties_indexed());

    assert(mint_ok_post(s0, s1, who, dna));
}

/// Appending a fresh asset and opening a new index entry for its owner
/// preserves well-formedness and yields the mint postcondition.
proof fn lemma_mint_new_entry(s0: Pallet, s1: Pallet, who: AccountId, dna: [u8; 32])
    requires
        s0.wf(),
        !s0.kitty_exists(dna@),
        !s0.entry_exists(who),
        s0.count_for_kitties < u32::MAX,
        s1.kitties@ == s0.kitties@.push(Kitty { dna, owner: who, price: None }),
        s1.count_for_kitties == s0.count_for_kitties + 1,
        s1.kitties_owned@.len() == s0.kitties_owned@.len() + 1,
        forall|f: int|
            0 <= f < s0.kitties_owned@.len() ==> s1.kitties_owned@[f] == s0.kitties_owned@[f],
        s1.kitties_owned@[s0.kitties_owned@.len() as int].account == who,
        s1.kitties_owned@[s0.kitties_owned@.len() as int].ids@
            == Seq::<[u8; 32]>::empty().push(dna),
    ensures
        s1.wf(),
        mint_ok_post(s0, s1, who, dna),
{
    let k = Kitty { dna, owner: who, price: None };
    let kn = s0.kitties@.len() as int;
    let en = s0.kitties_owned@.len() as int;

    assert forall|i: int, j: int| 0 <= i < j < s1.kitties@.len() implies s1.kitties@[i].dna@
        != s1.kitties@[j].dna@ by {
        assert(s1.kitties@[i] == s0.kitties@[i]);
        if j < kn {
            assert(s1.kitties@[j] == s0.kitties@[j]);
        } else {
            assert(s1.kitties@[j] == k);
            if s0.kitties@[i].dna@ == dna@ {
                assert(s0.kitty_exists(dna@));
            }
        }
    }
    assert(s1.kitties_unique());

    assert forall|f: int, g: int| 0 <= f < g < s1.kitties_owned@.len() implies
        s1.kitties_owned@[f].account != s1.kitties_owned@[g].account by {
        assert(s1.kitties_owned@[f] == s0.kitties_owned@[f]);
        if g < en {
            assert(s1.kitties_owned@[g] == s0.kitties_owned@[g]);
        } else {
            if s0.kitties_owned@[f].account == who {
                assert(s0.entry_exists(who));
            }
        }
    }
    assert(s1.accounts_unique());

    assert forall|f: int| 0 <= f < s1.kitties_owned@.len() implies #[trigger]
        s1.kitties_owned@[f].ids@.len() <= MAX_OWNED by {
        if f < en {
            assert(s1.kitties_owned@[f] == s0.kitties_owned@[f]);
            assert(s0.kitties_owned@[f].ids@.len() <= MAX_OWNED);
        }
    }
    assert(s1.entries_bounded());

    assert forall|f: int, j1: int, j2: int|
        0 <= f < s1.kitties_owned@.len() && 0 <= j1 < j2 < s1.kitties_owned@[f].ids@.len()
        implies s1.kitties_owned@[f].ids@[j1]@ != s1.kitties_owned@[f].ids@[j2]@ by {
        assert(f != en);
        assert(s1.kitties_owned@[f] == s0.kitties_owned@[f]);
        assert(s0.kitties_owned@[f].ids@[j1]@ != s0.kitties_owned@[f].ids@[j2]@);
    }
    assert(s1.entry_ids_unique());

    s1.lemma_entry_index(en, who);
    assert(s0.owned(who) == Seq::<[u8; 32]>::empty());
    assert(s1.owned(who) =~= s0.owned(who).push(dna));

    assert forall|a: AccountId| a != who implies s1.owned(a) == s0.owned(a) by {
        if s0.entry_exists(a) {
            let ea = choose|f: int|
                0 <= f < s0.kitties_owned@.len() && s0.kitties_owned@[f].account == a;
            s0.lemma_entry_index(ea, a);
            assert(s1.kitties_owned@[ea] == s0.kitties_owned@[ea]);
            s1.lemma_entry_index(ea, a);
        } else {
            assert(!s1.entry_exists(a)) by {
                if s1.entry_exists(a) {
                    let ea = choose|f: int|
                        0 <= f < s1.kitties_owned@.len() && s1.kitties_owned@[f].account == a;
                    assert(ea != en);
                    assert(s1.kitties_owned@[ea].account == s0.kitties_owned@[ea].account);
                    assert(s0.entry_exists(a));
                }
            };
        }
    }

    assert forall|f: int, j: int| #![trigger s1.kitties_owned@[f].ids@[j]]
        0 <= f < s1.kitties_owned@.len() && 0 <= j < s1.kitties_owned@[f].ids@.len()
        implies s1.kitty_exists(s1.kitties_owned@[f].ids@[j]@)
            && s1.kitty(s1.kitties_owned@[f].ids@[j]@).owner == s1.kitties_owned@[f].account by {
        if f == en {
            assert(j == 0);
            assert(s1.kitties_owned@[f].ids@[j] == dna);
            assert(s1.kitties@[kn] == k);
            s1.lemma_kitty_index(kn, dna@);
        } else {
            assert(s1.kitties_owned@[f] == s0.kitties_owned@[f]);
            let d = s0.kitties_owned@[f].ids@[j]@;
            assert(s0.kitty_exists(d));
            assert(s0.kitty(d).owner == s0.kitties_owned@[f].account);
            lemma_kitty_lookup_push(s0, s1, k, d);
        }
    }
    assert(s1.owned_backed());

    assert forall|i: int| #![trigger s1.kitties@[i]] 0 <= i < s1.kitties@.len() implies
        s1.entry_exists(s1.kitties@[i].owner)
            && id_in(s1.owned(s1.kitties@[i].owner), s1.kitties@[i].dna@) by {
        if i < kn {
            assert(s1.kitties@[i] == s0.kitties@[i]);
            let a = s0.kitties@[i].owner;
            assert(s0.entry_exists(a));
            assert(id_in(s0.owned(a), s0.kitties@[i].dna@));
            assert(a != who);
            assert(s1.owned(a) == s0.owned(a));
            let ea = choose|f: int|
                0 <= f < s0.kitties_owned@.len() && s0.kitties_owned@[f].account == a;
            assert(s1.kitties_owned@[ea].account == a);
            assert(s1.entry_exists(a));
        } else {
            assert(s1.kitties@[i] == k);
            assert(s1.entry_exists(who));
            lemma_id_in_push(s0.owned(who), dna, dna@);
        }
    }
    assert(s1.kitties_indexed());

    assert(mint_ok_post(s0, s1, who, dna));
}

impl Pallet {
    /// Mint: create a brand-new asset with identifier `dna`, owned by
    /// `who` and not listed for sale.
    ///
    /// Succeeds exactly when the identifier is fresh, the registry counter
    /// is below its maximum, and `who` is below the per-account capacity;
    /// otherwise the matching error is returned and the state is unchanged.
    pub fn mint(&mut self, who: AccountId, dna: [u8; 32]) -> (r: Result<Event, Error>)
        requires
            old(self).wf(),
        ensures
            final(self).wf(),
            match r {
                Ok(ev) => spec_mint_check(*old(self), who, dna) is Ok && mint_ok_post(
                    *old(self),
                    *final(self),
                    who,
                    dna,
                ) && ev == (Event::Created { owner: who }),
                Err(e) => spec_mint_check(*old(self), who, dna) == Err::<(), Error>(e)
                    && *final(self) == *old(self),
            },
    {
        if self.find_kitty(&dna).is_some() {
            return Err(Error::DuplicateKitty);
        }
        if self.count_for_kitties == u32::MAX {
            return Err(Error::TooManyKitties);
        }
        match self.find_entry(who) {
            Some(e) => {
                proof {
                    old(self).lemma_entry_index(e as int, who);
                }
                if self.kitties_owned[e].ids.len() >= MAX_OWNED {
                    return Err(Error::TooManyOwned);
                }
                let en = &mut self.kitties_owned[e];
                en.ids.push(dna);
                self.kitties.push(Kitty { dna, owner: who, price: None });
                self.count_for_kitties = self.count_for_kitties + 1;
                proof {
                    lemma_mint_existing(*old(self), *self, who, dna, e as int);
                }
            },
            None => {
                proof {
                    assert(old(self).owned(who) == Seq::<[u8; 32]>::empty());
                }
                let mut ids: Vec<[u8; 32]> = Vec::new();
                ids.push(dna);
                self.kitties_owned.push(OwnedEntry { account: who, ids });
                self.kitties.push(Kitty { dna, owner: who, price: None });
                self.count_for_kitties = self.count_for_kitties + 1;
                proof {
                    lemma_mint_new_entry(*old(self), *self, who, dna);
                }
            },
        }
        Ok(Event::Created { owner: who })
    }
}

/// A matching position within a list of pairwise-distinct identifiers is
/// *the* position `id_pos` denotes.
proof fn lemma_id_pos(ids: Seq<[u8; 32]>, d: Seq<u8>, p: int)
    requires
        0 <= p < ids.len(),
        ids[p]@ == d,
        forall|j1: int, j2: int| 0 <= j1 < j2 < ids.len() ==> ids[j1]@ != ids[j2]@,
    ensures
        id_in(ids, d),
        id_pos(ids, d) == p,
{
    assert(id_in(ids, d));
    let q = id_pos(ids, d);
    if q != p {
        if q < p {
            assert(ids[q]@ != ids[p]@);
        } else {
            assert(ids[p]@ != ids[q]@);
        }
    }
}

/// Re-recording one asset under the same identifier does not change the
/// lookup of any identifier.
proof fn lemma_kitty_lookup_update(s0: Pallet, s1: Pallet, ki: int, k1: Kitty, d: Seq<u8>)
    requires
        s0.kitties_unique(),
        s1.kitties_unique(),
        0 <= ki < s0.kitties@.len(),
        s1.kitties@ == s0.kitties@.update(ki, k1),
        k1.dna@ == s0.kitties@[ki].dna@,
        s0.kitty_exists(d),
    ensures
        s1.kitty_exists(d),
        d != s0.kitties@[ki].dna@ ==> s1.kitty(d) == s0.kitty(d),
        d == s0.kitties@[ki].dna@ ==> s1.kitty(d) == k1,
{
    let i0 = s0.kitty_index(d);
    assert(0 <= i0 < s0.kitties@.len() && s0.kitties@[i0].dna@ == d);
    s0.lemma_kitty_index(i0, d);
    assert(s1.kitties@[i0].dna@ == d);
    s1.lemma_kitty_index(i0, d);
    if d != s0.kitties@[ki].dna@ {
        assert(i0 != ki);
        assert(s1.kitties@[i0] == s0.kitties@[i0]);
    } else {
        assert(i0 == ki);
    }
}

/// State change of a successful ownership move (transfer or sale): the
/// asset at store index `ki` passes from its current owner to `to` and is
/// delisted; the previous owner's entry loses the identifier, `to`'s entry
/// gains it last, and every other account's holdings are untouched.
pub open spec fn move_ok_post(pre: Pallet, post: Pallet, to: AccountId, ki: int) -> bool {
    let k = pre.kitties@[ki];
    &&& post.kitties@ == pre.kitties@.update(ki, Kitty { dna: k.dna, owner: to, price: None })
    &&& post.owned(k.owner) == pre.owned(k.owner).remove(id_pos(pre.owned(k.owner), k.dna@))
    &&& post.owned(to) == pre.owned(to).push(k.dna)
    &&& forall|a: AccountId| a != k.owner && a != to ==> post.owned(a) == pre.owned(a)
    &&& post.count_for_kitties == pre.count_for_kitties
}

/// Moving an asset into an existing index entry preserves well-formedness
/// and yields the move postcondition.
#[verifier::rlimit(80)]
proof fn lemma_move_existing(
    s0: Pallet,
    s1: Pallet,
    to: AccountId,
    ki: int,
    ef: int,
    p: int,
    et: int,
)
    requires
        s0.wf(),
        0 <= ki < s0.kitties@.len(),
        s0.kitties@[ki].owner != to,
        s0.owned(to).len() < MAX_OWNED,
        0 <= ef < s0.kitties_owned@.len(),
        s0.kitties_owned@[ef].account == s0.kitties@[ki].owner,
        0 <= p < s0.kitties_owned@[ef].ids@.len(),
        s0.kitties_owned@[ef].ids@[p]@ == s0.kitties@[ki].dna@,
        0 <= et < s0.kitties_owned@.len(),
        s0.kitties_owned@[et].account == to,
        s1.kitties@ == s0.kitties@.update(
            ki,
            Kitty { dna: s0.kitties@[ki].dna, owner: to, price: None },
        ),
        s1.count_for_kitties == s0.count_for_kitties,
        s1.kitties_owned@.len() == s0.kitties_owned@.len(),
        forall|f: int|
            0 <= f < s0.kitties_owned@.len() && f != ef && f != et
                ==> s1.kitties_owned@[f] == s0.kitties_owned@[f],
        s1.kitties_owned@[ef].account == s0.kitties@[ki].owner,
        s1.kitties_owned@[ef].ids@ == s0.kitties_owned@[ef].ids@.remove(p),
        s1.kitties_owned@[et].account == to,
        s1.kitties_owned@[et].ids@ == s0.kitties_owned@[et].ids@.push(s0.kitties@[ki].dna),
    ensures
        s1.wf(),
        move_ok_post(s0, s1, to, ki),
{
    let from = s0.kitties@[ki].owner;
    let k0 = s0.kitties@[ki];
    let d = k0.dna@;
    let k1 = Kitty { dna: k0.dna, owner: to, price: None };
    let oldf = s0.kitties_owned@[ef].ids@;
    let newf = s1.kitties_owned@[ef].ids@;
    let oldt = s0.kitties_owned@[et].ids@;
    let newt = s1.kitties_owned@[et].ids@;

    assert(ef != et);
    oldf.remove_ensures(p);
    s0.lemma_kitty_index(ki, d);

    assert forall|i: int| 0 <= i < s1.kitties@.len() implies #[trigger] s1.kitties@[i].dna@
        == s0.kitties@[i].dna@ by {
        if i != ki {
            assert(s1.kitties@[i] == s0.kitties@[i]);
        }
    }
    assert forall|i: int, j: int| 0 <= i < j < s1.kitties@.len() implies s1.kitties@[i].dna@
        != s1.kitties@[j].dna@ by {
        assert(s1.kitties@[i].dna@ == s0.kitties@[i].dna@);
        assert(s1.kitties@[j].dna@ == s0.kitties@[j].dna@);
    }
    assert(s1.kitties_unique());

    assert forall|f: int| 0 <= f < s1.kitties_owned@.len() implies #[trigger]
        s1.kitties_owned@[f].account == s0.kitties_owned@[f].account by {
        if f != ef && f != et {
            assert(s1.kitties_owned@[f] == s0.kitties_owned@[f]);
        }
    }
    assert forall|f: int, g: int| 0 <= f < g < s1.kitties_owned@.len() implies
        s1.kitties_owned@[f].account != s1.kitties_owned@[g].account by {
        assert(s1.kitties_owned@[f].account == s0.kitties_owned@[f].account);
        assert(s1.kitties_owned@[g].account == s0.kitties_owned@[g].account);
    }
    assert(s1.accounts_unique());

    s0.lemma_entry_index(et, to);
    assert(oldt.len() < MAX_OWNED);
    assert forall|f: int| 0 <= f < s1.kitties_owned@.len() implies #[trigger]
        s1.kitties_owned@[f].ids@.len() <= MAX_OWNED by {
        if f == ef {
            assert(newf.len() == oldf.len() - 1);
            assert(oldf.len() <= MAX_OWNED);
        } else if f == et {
            assert(newt.len() == oldt.len() + 1);
        } else {
            assert(s1.kitties_owned@[f] == s0.kitties_owned@[f]);
            assert(s0.kitties_owned@[f].ids@.len() <= MAX_OWNED);
        }
    }
    assert(s1.entries_bounded());

    assert forall|x: int| 0 <= x < oldt.len() implies oldt[x]@ != d by {
        assert(s0.kitties_owned@[et].ids@[x] == oldt[x]);
        assert(s0.kitty_exists(oldt[x]@));
        assert(s0.kitty(oldt[x]@).owner == to);
        if oldt[x]@ == d {
            assert(s0.kitty(d).owner == from);
        }
    }

    assert forall|f: int, j1: int, j2: int|
        0 <= f < s1.kitties_owned@.len() && 0 <= j1 < j2 < s1.kitties_owned@[f].ids@.len()
        implies s1.kitties_owned@[f].ids@[j1]@ != s1.kitties_owned@[f].ids@[j2]@ by {
        if f == ef {
            let o1: int = if j1 < p { j1 } else { j1 + 1 };
            let o2: int = if j2 < p { j2 } else { j2 + 1 };
            assert(newf[j1] == oldf[o1]);
            assert(newf[j2] == oldf[o2]);
            assert(oldf[o1]@ != oldf[o2]@);
        } else if f == et {
            assert(newt[j1] == oldt[j1]);
            if j2 < oldt.len() {
                assert(newt[j2] == oldt[j2]);
                assert(oldt[j1]@ != oldt[j2]@);
            } else {
                assert(newt[j2] == k0.dna);
                assert(oldt[j1]@ != d);
            }
        } else {
            assert(s1.kitties_owned@[f] == s0.kitties_owned@[f]);
            assert(s0.kitties_owned@[f].ids@[j1]@ != s0.kitties_owned@[f].ids@[j2]@);
        }
    }
    assert(s1.entry_ids_unique());

    assert forall|f: int, x: int| #![trigger s1.kitties_owned@[f].ids@[x]]
        0 <= f < s1.kitties_owned@.len() && 0 <= x < s1.kitties_owned@[f].ids@.len()
        implies s1.kitty_exists(s1.kitties_owned@[f].ids@[x]@)
            && s1.kitty(s1.kitties_owned@[f].ids@[x]@).owner == s1.kitties_owned@[f].account by {
        if f == ef {
            let o: int = if x < p { x } else { x + 1 };
            assert(newf[x] == oldf[o]);
            let dd = oldf[o]@;
            assert(s0.kitties_owned@[ef].ids@[o] == oldf[o]);
            assert(s0.kitty_exists(dd) && s0.kitty(dd).owner == from);
            assert(s0.kitties_owned@[ef].ids@[p] == oldf[p]);
            if o < p {
                assert(oldf[o]@ != oldf[p]@);
            } else if o > p {
                assert(oldf[p]@ != oldf[o]@);
            }
            assert(dd != d);
            lemma_kitty_lookup_update(s0, s1, ki, k1, dd);
            assert(s1.kitty(dd) == s0.kitty(dd));
        } else if f == et {
            if x == oldt.len() {
                assert(newt[x] == k0.dna);
                lemma_kitty_lookup_update(s0, s1, ki, k1, d);
                assert(s1.kitty(d) == k1);
            } else {
                assert(newt[x] == oldt[x]);
                let dd = oldt[x]@;
                assert(s0.kitties_owned@[et].ids@[x] == oldt[x]);
                assert(s0.kitty_exists(dd) && s0.kitty(dd).owner == to);
                assert(dd != d);
                lemma_kitty_lookup_update(s0, s1, ki, k1, dd);
            }
        } else {
            assert(s1.kitties_owned@[f] == s0.kitties_owned@[f]);
            let dd = s0.kitties_owned@[f].ids@[x]@;
            assert(s0.kitty_exists(dd) && s0.kitty(dd).owner == s0.kitties_owned@[f].account);
            assert(s0.kitties_owned@[f].account != from);
            if dd == d {
                assert(s0.kitty(d).owner == from);
            }
            lemma_kitty_lookup_update(s0, s1, ki, k1, dd);
        }
    }
    assert(s1.owned_backed());

    s0.lemma_entry_index(ef, from);
    s1.lemma_entry_index(ef, from);
    s1.lemma_entry_index(et, to);
    assert(s0.owned(from) == oldf);
    assert(s1.owned(from) == newf);
    assert(s0.owned(to) == oldt);
    assert(s1.owned(to) == newt);
    lemma_id_pos(oldf, d, p);

    assert forall|a: AccountId| a != from && a != to implies s1.owned(a) == s0.owned(a) by {
        if s0.entry_exists(a) {
            let ea = choose|f: int|
                0 <= f < s0.kitties_owned@.len() && s0.kitties_owned@[f].account == a;
            s0.lemma_entry_index(ea, a);
            assert(ea != ef && ea != et);
            assert(s1.kitties_owned@[ea] == s0.kitties_owned@[ea]);
            s1.lemma_entry_index(ea, a);
        } else {
            assert(!s1.entry_exists(a)) by {
                if s1.entry_exists(a) {
                    let ea = choose|f: int|
                        0 <= f < s1.kitties_owned@.len() && s1.kitties_owned@[f].account == a;
                    assert(s1.kitties_owned@[ea].account == s0.kitties_owned@[ea].account);
                    assert(s0.entry_exists(a));
                }
            };
        }
    }

    assert forall|i: int| #![trigger s1.kitties@[i]] 0 <= i < s1.kitties@.len() implies
        s1.entry_exists(s1.kitties@[i].owner)
            && id_in(s1.owned(s1.kitties@[i].owner), s1.kitties@[i].dna@) by {
        if i == ki {
            assert(s1.kitties@[ki] == k1);
            assert(s1.entry_exists(to));
            assert(newt[oldt.len() as int]@ == d);
            assert(id_in(newt, d));
        } else {
            assert(s1.kitties@[i] == s0.kitties@[i]);
            let a = s0.kitties@[i].owner;
            let di = s0.kitties@[i].dna@;
            assert(s0.kitties@[ki].dna@ == d);
            assert(di != d);
            assert(s0.entry_exists(a) && id_in(s0.owned(a), di));
            if a == from {
                let q2 = choose|j: int| 0 <= j < oldf.len() && oldf[j]@ == di;
                assert(oldf[p]@ == d);
                assert(q2 != p);
                if q2 < p {
                    assert(newf[q2] == oldf[q2]);
                } else {
                    assert(newf[q2 - 1] == oldf[q2]);
                }
                assert(id_in(newf, di));
                assert(s1.entry_exists(from));
            } else if a == to {
                let q2 = choose|j: int| 0 <= j < oldt.len() && oldt[j]@ == di;
                assert(newt[q2] == oldt[q2]);
                assert(id_in(newt, di));
            } else {
                assert(s1.owned(a) == s0.owned(a));
                let ea = choose|f: int|
                    0 <= f < s0.kitties_owned@.len() && s0.kitties_owned@[f].account == a;
                assert(s1.kitties_owned@[ea].account == a);
                assert(s1.entry_exists(a));
            }
        }
    }
    assert(s1.kitties_indexed());

    assert(move_ok_post(s0, s1, to, ki));
}

/// Moving an asset to an account with no index entry yet preserves
/// well-formedness and yields the move postcondition.
#[verifier::rlimit(80)]
proof fn lemma_move_new_entry(s0: Pallet, s1: Pallet, to: AccountId, ki: int, ef: int, p: int)
    requires
        s0.wf(),
        0 <= ki < s0.kitties@.len(),
        s0.kitties@[ki].owner != to,
        !s0.entry_exists(to),
        0 <= ef < s0.kitties_owned@.len(),
        s0.kitties_owned@[ef].account == s0.kitties@[ki].owner,
        0 <= p < s0.kitties_owned@[ef].ids@.len(),
        s0.kitties_owned@[ef].ids@[p]@ == s0.kitties@[ki].dna@,
        s1.kitties@ == s0.kitties@.update(
            ki,
            Kitty { dna: s0.kitties@[ki].dna, owner: to, price: None },
        ),
        s1.count_for_kitties == s0.count_for_kitties,
        s1.kitties_owned@.len() == s0.kitties_owned@.len() + 1,
        forall|f: int|
            0 <= f < s0.kitties_owned@.len() && f != ef
                ==> s1.kitties_owned@[f] == s0.kitties_owned@[f],
        s1.kitties_owned@[ef].account == s0.kitties@[ki].owner,
        s1.kitties_owned@[ef].ids@ == s0.kitties_owned@[ef].ids@.remove(p),
        s1.kitties_owned@[s0.kitties_owned@.len() as int].account == to,
        s1.kitties_owned@[s0.kitties_owned@.len() as int].ids@
            == Seq::<[u8; 32]>::empty().push(s0.kitties@[ki].dna),
    ensures
        s1.wf(),
        move_ok_post(s0, s1, to, ki),
{
    let from = s0.kitties@[ki].owner;
    let k0 = s0.kitties@[ki];
    let d = k0.dna@;
    let k1 = Kitty { dna: k0.dna, owner: to, price: None };
    let oldf = s0.kitties_owned@[ef].ids@;
    let newf = s1.kitties_owned@[ef].ids@;
    let en = s0.kitties_owned@.len() as int;
    let newt = s1.kitties_owned@[en].ids@;

    oldf.remove_ensures(p);
    s0.lemma_kitty_index(ki, d);

    assert forall|i: int| 0 <= i < s1.kitties@.len() implies #[trigger] s1.kitties@[i].dna@
        == s0.kitties@[i].dna@ by {
        if i != ki {
            assert(s1.kitties@[i] == s0.kitties@[i]);
        }
    }
    assert forall|i: int, j: int| 0 <= i < j < s1.kitties@.len() implies s1.kitties@[i].dna@
        != s1.kitties@[j].dna@ by {
        assert(s1.kitties@[i].dna@ == s0.kitties@[i].dna@);
        assert(s1.kitties@[j].dna@ == s0.kitties@[j].dna@);
    }
    assert(s1.kitties_unique());

    assert forall|f: int| 0 <= f < s0.kitties_owned@.len() implies #[trigger]
        s1.kitties_owned@[f].account == s0.kitties_owned@[f].account by {
        if f != ef {
            assert(s1.kitties_owned@[f] == s0.kitties_owned@[f]);
        }
    }
    assert forall|f: int, g: int| 0 <= f < g < s1.kitties_owned@.len() implies
        s1.kitties_owned@[f].account != s1.kitties_owned@[g].account by {
        assert(s1.kitties_owned@[f].account == s0.kitties_owned@[f].account);
        if g < en {
            assert(s1.kitties_owned@[g].account == s0.kitties_owned@[g].account);
        } else {
            if s0.kitties_owned@[f].account == to {
                assert(s0.entry_exists(to));
            }
        }
    }
    assert(s1.accounts_unique());

    assert forall|f: int| 0 <= f < s1.kitties_owned@.len() implies #[trigger]
        s1.kitties_owned@[f].ids@.len() <= MAX_OWNED by {
        if f == ef {
            assert(newf.len() == oldf.len() - 1);
            assert(oldf.len() <= MAX_OWNED);
        } else if f == en {
            assert(newt.len() == 1);
        } else {
            assert(s1.kitties_owned@[f] == s0.kitties_owned@[f]);
            assert(s0.kitties_owned@[f].ids@.len() <= MAX_OWNED);
        }
    }
    assert(s1.entries_bounded());

    assert forall|f: int, j1: int, j2: int|
        0 <= f < s1.kitties_owned@.len() && 0 <= j1 < j2 < s1.kitties_owned@[f].ids@.len()
        implies s1.kitties_owned@[f].ids@[j1]@ != s1.kitties_owned@[f].ids@[j2]@ by {
        if f == ef {
            let o1: int = if j1 < p { j1 } else { j1 + 1 };
            let o2: int = if j2 < p { j2 } else { j2 + 1 };
            assert(newf[j1] == oldf[o1]);
            assert(newf[j2] == oldf[o2]);
            assert(oldf[o1]@ != oldf[o2]@);
        } else if f == en {
            assert(false);
        } else {
            assert(s1.kitties_owned@[f] == s0.kitties_owned@[f]);
            assert(s0.kitties_owned@[f].ids@[j1]@ != s0.kitties_owned@[f].ids@[j2]@);
        }
    }
    assert(s1.entry_ids_unique());

    assert forall|f: int, x: int| #![trigger s1.kitties_owned@[f].ids@[x]]
        0 <= f < s1.kitties_owned@.len() && 0 <= x < s1.kitties_owned@[f].ids@.len()
        implies s1.kitty_exists(s1.kitties_owned@[f].ids@[x]@)
            && s1.kitty(s1.kitties_owned@[f].ids@[x]@).owner == s1.kitties_owned@[f].account by {
        if f == ef {
            let o: int = if x < p { x } else { x + 1 };
            assert(newf[x] == oldf[o]);
            let dd = oldf[o]@;
            assert(s0.kitties_owned@[ef].ids@[o] == oldf[o]);
            assert(s0.kitty_exists(dd) && s0.kitty(dd).owner == from);
            assert(s0.kitties_owned@[ef].ids@[p] == oldf[p]);
            if o < p {
                assert(oldf[o]@ != oldf[p]@);
            } else if o > p {
                assert(oldf[p]@ != oldf[o]@);
            }
            assert(dd != d);
            lemma_kitty_lookup_update(s0, s1, ki, k1, dd);
            assert(s1.kitty(dd) == s0.kitty(dd));
        } else if f == en {
            assert(x == 0);
            assert(newt[x] == k0.dna);
            lemma_kitty_lookup_update(s0, s1, ki, k1, d);
            assert(s1.kitty(d) == k1);
        } else {
            assert(s1.kitties_owned@[f] == s0.kitties_owned@[f]);
            let dd = s0.kitties_owned@[f].ids@[x]@;
            assert(s0.kitty_exists(dd) && s0.kitty(dd).owner == s0.kitties_owned@[f].account);
            assert(s0.kitties_owned@[f].account != from);
            if dd == d {
                assert(s0.kitty(d).owner == from);
            }
            lemma_kitty_lookup_update(s0, s1, ki, k1, dd);
        }
    }
    assert(s1.owned_backed());

    s0.lemma_entry_index(ef, from);
    s1.lemma_entry_index(ef, from);
    s1.lemma_entry_index(en, to);
    assert(s0.owned(from) == oldf);
    assert(s1.owned(from) == newf);
    assert(s0.owned(to) == Seq::<[u8; 32]>::empty());
    assert(s1.owned(to) == newt);
    assert(s1.owned(to) =~= s0.owned(to).push(k0.dna));
    lemma_id_pos(oldf, d, p);

    assert forall|a: AccountId| a != from && a != to implies s1.owned(a) == s0.owned(a) by {
        if s0.entry_exists(a) {
            let ea = choose|f: int|
                0 <= f < s0.kitties_owned@.len() && s0.kitties_owned@[f].account == a;
            s0.lemma_entry_index(ea, a);
            assert(ea != ef);
            assert(s1.kitties_owned@[ea] == s0.kitties_owned@[ea]);
            s1.lemma_entry_index(ea, a);
        } else {
            assert(!s1.entry_exists(a)) by {
                if s1.entry_exists(a) {
                    let ea = choose|f: int|
                        0 <= f < s1.kitties_owned@.len() && s1.kitties_owned@[f].account == a;
                    assert(ea != en);
                    assert(s1.kitties_owned@[ea].account == s0.kitties_owned@[ea].account);
                    assert(s0.entry_exists(a));
                }
            };
        }
    }

    assert forall|i: int| #![trigger s1.kitties@[i]] 0 <= i < s1.kitties@.len() implies
        s1.entry_exists(s1.kitties@[i].owner)
            && id_in(s1.owned(s1.kitties@[i].owner), s1.kitties@[i].dna@) by {
        if i == ki {
            assert(s1.kitties@[ki] == k1);
            assert(s1.entry_exists(to));
            assert(newt[0]@ == d);
            assert(id_in(newt, d));
        } else {
            assert(s1.kitties@[i] == s0.kitties@[i]);
            let a = s0.kitties@[i].owner;
            let di = s0.kitties@[i].dna@;
            assert(s0.kitties@[ki].dna@ == d);
            assert(di != d);
            assert(s0.entry_exists(a) && id_in(s0.owned(a), di));
            assert(a != to);
            if a == from {
                let q2 = choose|j: int| 0 <= j < oldf.len() && oldf[j]@ == di;
                assert(oldf[p]@ == d);
                assert(q2 != p);
                if q2 < p {
                    assert(newf[q2] == oldf[q2]);
                } else {
                    assert(newf[q2 - 1] == oldf[q2]);
                }
                assert(id_in(newf, di));
                assert(s1.entry_exists(from));
            } else {
                assert(s1.owned(a) == s0.owned(a));
                let ea = choose|f: int|
                    0 <= f < s0.kitties_owned@.len() && s0.kitties_owned@[f].account == a;
                assert(s1.kitties_owned@[ea].account == a);
                assert(s1.entry_exists(a));
            }
        }
    }
    assert(s1.kitties_indexed());

    assert(move_ok_post(s0, s1, to, ki));
}

impl Pallet {
    /// Move the asset at store index `ki` to `to`: the previous owner's
    /// entry loses the identifier, `to`'s entry gains it, the record's
    /// owner changes and its listing is cleared.
    fn do_move(&mut self, to: AccountId, ki: usize)
        requires
            old(self).wf(),
            ki < old(self).kitties@.len(),
            old(self).kitties@[ki as int].owner != to,
            old(self).owned(to).len() < MAX_OWNED,
        ensures
            final(self).wf(),
            move_ok_post(*old(self), *final(self), to, ki as int),
    {
        let from = self.kitties[ki].owner;
        let dna = self.kitties[ki].dna;
        proof {
            assert(old(self).entry_exists(from) && id_in(old(self).owned(from), dna@));
        }
        let ef = self.find_entry(from).unwrap();
        proof {
            old(self).lemma_entry_index(ef as int, from);
        }
        let p = find_in_ids(&self.kitties_owned[ef].ids, &dna).unwrap();

        let en = &mut self.kitties_owned[ef];
        let _ = en.ids.remove(p);

        let kr = &mut self.kitties[ki];
        kr.owner = to;
        kr.price = None;

        match self.find_entry(to) {
            Some(et) => {
                proof {
                    assert(self.kitties_owned@[et as int] == old(self).kitties_owned@[et as int]);
                    old(self).lemma_entry_index(et as int, to);
                }
                let en2 = &mut self.kitties_owned[et];
                en2.ids.push(dna);
                proof {
                    lemma_move_existing(
                        *old(self),
                        *self,
                        to,
                        ki as int,
                        ef as int,
                        p as int,
                        et as int,
                    );
                }
            },
            None => {
                proof {
                    assert(!old(self).entry_exists(to)) by {
                        if old(self).entry_exists(to) {
                            let ea = choose|f: int|
                                0 <= f < old(self).kitties_owned@.len()
                                    && old(self).kitties_owned@[f].account == to;
                            assert(self.kitties_owned@[ea].account == to);
                            assert(self.entry_exists(to));
                        }
                    };
                }
                let mut ids: Vec<[u8; 32]> = Vec::new();
                ids.push(dna);
                self.kitties_owned.push(OwnedEntry { account: to, ids });
                proof {
                    lemma_move_new_entry(*old(self), *self, to, ki as int, ef as int, p as int);
                }
            },
        }
    }
}

/// Validation of a transfer request, with the checks in the order the
/// operation performs them.
pub open spec fn spec_transfer_check(
    s: Pallet,
    who: AccountId,
    to: AccountId,
    kitty_id: [u8; 32],
) -> Result<(), Error> {
    if !s.kitty_exists(kitty_id@) {
        Err(Error::NoKitty)
    } else if s.kitty(kitty_id@).owner != who {
        Err(Error::NotOwner)
    } else if to == who {
        Err(Error::TransferToSelf)
    } else if s.owned(to).len() >= MAX_OWNED {
        Err(Error::TooManyOwned)
    } else {
        Ok(())
    }
}

/// Validation of a set-price request.
pub open spec fn spec_set_price_check(s: Pallet, who: AccountId, kitty_id: [u8; 32]) -> Result<
    (),
    Error,
> {
    if !s.kitty_exists(kitty_id@) {
        Err(Error::NoKitty)
    } else if s.kitty(kitty_id@).owner != who {
        Err(Error::NotOwner)
    } else {
        Ok(())
    }
}

/// Validation of a purchase, with the checks in the order the operation
/// performs them; on success it yields the exact amount the buyer owes,
/// which is the listed price, never `max_price`.
pub open spec fn spec_buy_check(
    s: Pallet,
    buyer: AccountId,
    kitty_id: [u8; 32],
    max_price: Balance,
) -> Result<Balance, Error> {
    if !s.kitty_exists(kitty_id@) {
        Err(Error::NoKitty)
    } else if s.kitty(kitty_id@).price is None {
        Err(Error::NotForSale)
    } else if s.kitty(kitty_id@).price.unwrap() > max_price {
        Err(Error::MaxPriceTooLow)
    } else if s.kitty(kitty_id@).owner == buyer {
        Err(Error::TransferToSelf)
    } else if s.owned(buyer).len() >= MAX_OWNED {
        Err(Error::TooManyOwned)
    } else {
        Ok(s.kitty(kitty_id@).price.unwrap())
    }
}

/// Re-recording one asset with only its listing changed preserves
/// well-formedness and leaves every account's holdings unchanged.
#[verifier::rlimit(50)]
proof fn lemma_set_price(s0: Pallet, s1: Pallet, ki: int, price: Option<Balance>)
    requires
        s0.wf(),
        0 <= ki < s0.kitties@.len(),
        s1.kitties@ == s0.kitties@.update(
            ki,
            Kitty { dna: s0.kitties@[ki].dna, owner: s0.kitties@[ki].owner, price },
        ),
        s1.kitties_owned@ == s0.kitties_owned@,
        s1.count_for_kitties == s0.count_for_kitties,
    ensures
        s1.wf(),
        forall|a: AccountId| s1.owned(a) == s0.owned(a),
{
    let k1 = Kitty { dna: s0.kitties@[ki].dna, owner: s0.kitties@[ki].owner, price };

    assert forall|i: int| 0 <= i < s1.kitties@.len() implies #[trigger] s1.kitties@[i].dna@
        == s0.kitties@[i].dna@ && s1.kitties@[i].owner == s0.kitties@[i].owner by {
        if i != ki {
            assert(s1.kitties@[i] == s0.kitties@[i]);
        }
    }
    assert forall|i: int, j: int| 0 <= i < j < s1.kitties@.len() implies s1.kitties@[i].dna@
        != s1.kitties@[j].dna@ by {
        assert(s1.kitties@[i].dna@ == s0.kitties@[i].dna@);
        assert(s1.kitties@[j].dna@ == s0.kitties@[j].dna@);
    }
    assert(s1.kitties_unique());
    assert(s1.accounts_unique());
    assert(s1.entries_bounded());
    assert(s1.entry_ids_unique());

    assert forall|a: AccountId| s1.owned(a) == s0.owned(a) by {
        if s0.entry_exists(a) {
            let ea = choose|f: int|
                0 <= f < s0.kitties_owned@.len() && s0.kitties_owned@[f].account == a;
            s0.lemma_entry_index(ea, a);
            s1.lemma_entry_index(ea, a);
        } else {
            assert(!s1.entry_exists(a)) by {
                if s1.entry_exists(a) {
                    let ea = choose|f: int|
                        0 <= f < s1.kitties_owned@.len() && s1.kitties_owned@[f].account == a;
                    assert(s0.kitties_owned@[ea].account == a);
                    assert(s0.entry_exists(a));
                }
            };
        }
    }

    assert forall|f: int, x: int| #![trigger s1.kitties_owned@[f].ids@[x]]
        0 <= f < s1.kitties_owned@.len() && 0 <= x < s1.kitties_owned@[f].ids@.len()
        implies s1.kitty_exists(s1.kitties_owned@[f].ids@[x]@)
            && s1.kitty(s1.kitties_owned@[f].ids@[x]@).owner == s1.kitties_owned@[f].account by {
        assert(s1.kitties_owned@[f] == s0.kitties_owned@[f]);
        let dd = s0.kitties_owned@[f].ids@[x]@;
        assert(s0.kitty_exists(dd) && s0.kitty(dd).owner == s0.kitties_owned@[f].account);
        lemma_kitty_lookup_update(s0, s1, ki, k1, dd);
    }
    assert(s1.owned_backed());

    assert forall|i: int| #![trigger s1.kitties@[i]] 0 <= i < s1.kitties@.len() implies
        s1.entry_exists(s1.kitties@[i].owner)
            && id_in(s1.owned(s1.kitties@[i].owner), s1.kitties@[i].dna@) by {
        assert(s1.kitties@[i].owner == s0.kitties@[i].owner);
        assert(s1.kitties@[i].dna@ == s0.kitties@[i].dna@);
        let a = s0.kitties@[i].owner;
        assert(s0.entry_exists(a) && id_in(s0.owned(a), s0.kitties@[i].dna@));
        let ea = choose|f: int|
            0 <= f < s0.kitties_owned@.len() && s0.kitties_owned@[f].account == a;
        assert(s1.kitties_owned@[ea].account == a);
        assert(s1.entry_exists(a));
        assert(s1.owned(a) == s0.owned(a));
    }
    assert(s1.kitties_indexed());
}

impl Pallet {
    /// Transfer: move the asset `kitty_id` from its owner `who` to `to`.
    ///
    /// Succeeds exactly when the asset exists, `who` owns it, `to` differs
    /// from `who`, and `to` is below the per-account capacity; the asset is
    /// then delisted as part of the move. Otherwise the matching error is
    /// returned and the state is unchanged.
    pub fn transfer(&mut self, who: AccountId, to: AccountId, kitty_id: [u8; 32]) -> (r: Result<
        Event,
        Error,
    >)
        requires
            old(self).wf(),
        ensures
            final(self).wf(),
            match r {
                Ok(ev) => spec_transfer_check(*old(self), who, to, kitty_id) is Ok && move_ok_post(
                    *old(self),
                    *final(self),
                    to,
                    old(self).kitty_index(kitty_id@),
                ) && ev == (Event::Transferred { from: who, to, kitty_id }),
                Err(e) => spec_transfer_check(*old(self), who, to, kitty_id) == Err::<(), Error>(e)
                    && *final(self) == *old(self),
            },
    {
        let ki = match self.find_kitty(&kitty_id) {
            Some(i) => i,
            None => {
                return Err(Error::NoKitty);
            },
        };
        proof {
            old(self).lemma_kitty_index(ki as int, kitty_id@);
        }
        if self.kitties[ki].owner != who {
            return Err(Error::NotOwner);
        }
        if to == who {
            return Err(Error::TransferToSelf);
        }
        match self.find_entry(to) {
            Some(e2) => {
                proof {
                    old(self).lemma_entry_index(e2 as int, to);
                }
                if self.kitties_owned[e2].ids.len() >= MAX_OWNED {
                    return Err(Error::TooManyOwned);
                }
            },
            None => {
                proof {
                    assert(old(self).owned(to) == Seq::<[u8; 32]>::empty());
                }
            },
        }
        self.do_move(to, ki);
        Ok(Event::Transferred { from: who, to, kitty_id })
    }

    /// Set price: list the asset `kitty_id` at `price`, or clear its
    /// listing when `price` is `None`.
    ///
    /// Succeeds exactly when the asset exists and `who` owns it; only the
    /// record's price changes, and an event is returned even when the
    /// listing is cleared. Otherwise the matching error is returned and the
    /// state is unchanged.
    pub fn set_price(
        &mut self,
        who: AccountId,
        kitty_id: [u8; 32],
        price: Option<Balance>,
    ) -> (r: Result<Event, Error>)
        requires
            old(self).wf(),
        ensures
            final(self).wf(),
            match r {
                Ok(ev) => {
                    &&& spec_set_price_check(*old(self), who, kitty_id) is Ok
                    &&& final(self).kitties@ == old(self).kitties@.update(
                        old(self).kitty_index(kitty_id@),
                        Kitty { dna: old(self).kitty(kitty_id@).dna, owner: who, price },
                    )
                    &&& final(self).kitties_owned@ == old(self).kitties_owned@
                    &&& final(self).count_for_kitties == old(self).count_for_kitties
                    &&& forall|a: AccountId| final(self).owned(a) == old(self).owned(a)
                    &&& ev == (Event::PriceSet { owner: who, kitty_id, price })
                },
                Err(e) => spec_set_price_check(*old(self), who, kitty_id) == Err::<(), Error>(e)
                    && *final(self) == *old(self),
            },
    {
        let ki = match self.find_kitty(&kitty_id) {
            Some(i) => i,
            None => {
                return Err(Error::NoKitty);
            },
        };
        proof {
            old(self).lemma_kitty_index(ki as int, kitty_id@);
        }
        if self.kitties[ki].owner != who {
            return Err(Error::NotOwner);
        }
        let kr = &mut self.kitties[ki];
        kr.price = price;
        proof {
            lemma_set_price(*old(self), *self, ki as int, price);
        }
        Ok(Event::PriceSet { owner: who, kitty_id, price })
    }

    /// Buy, validation phase: decide whether `buyer` may purchase
    /// `kitty_id` while paying at most `max_price`, without touching the
    /// state.
    ///
    /// On success the result is the exact amount the host's balance ledger
    /// must move from the buyer to the asset's owner — the listed price,
    /// never `max_price`. The host performs that fund movement and, only if
    /// it succeeds, calls [`Pallet::complete_buy`]; a failed fund movement
    /// leaves the registry untouched, which keeps settlement and ownership
    /// change one atomic unit.
    pub fn buy_kitty(&self, buyer: AccountId, kitty_id: [u8; 32], max_price: Balance) -> (r:
        Result<Balance, Error>)
        requires
            self.wf(),
        ensures
            r == spec_buy_check(*self, buyer, kitty_id, max_price),
    {
        let ki = match self.find_kitty(&kitty_id) {
            Some(i) => i,
            None => {
                return Err(Error::NoKitty);
            },
        };
        proof {
            self.lemma_kitty_index(ki as int, kitty_id@);
        }
        let price = match self.kitties[ki].price {
            Some(pr) => pr,
            None => {
                return Err(Error::NotForSale);
            },
        };
        if price > max_price {
            return Err(Error::MaxPriceTooLow);
        }
        if self.kitties[ki].owner == buyer {
            return Err(Error::TransferToSelf);
        }
        match self.find_entry(buyer) {
            Some(e2) => {
                proof {
                    self.lemma_entry_index(e2 as int, buyer);
                }
                if self.kitties_owned[e2].ids.len() >= MAX_OWNED {
                    return Err(Error::TooManyOwned);
                }
            },
            None => {
                proof {
                    assert(self.owned(buyer) == Seq::<[u8; 32]>::empty());
                }
            },
        }
        Ok(price)
    }

    /// Buy, commit phase: after the host has moved the funds authorized by
    /// [`Pallet::buy_kitty`], pass ownership of `kitty_id` to `buyer` and
    /// delist it.
    ///
    /// The purchase conditions are re-checked, so a call whose funds were
    /// never authorized fails with the matching error and changes nothing.
    pub fn complete_buy(&mut self, buyer: AccountId, kitty_id: [u8; 32], max_price: Balance) -> (r:
        Result<Event, Error>)
        requires
            old(self).wf(),
        ensures
            final(self).wf(),
            match r {
                Ok(ev) => spec_buy_check(*old(self), buyer, kitty_id, max_price) is Ok
                    && move_ok_post(
                    *old(self),
                    *final(self),
                    buyer,
                    old(self).kitty_index(kitty_id@),
                ) && ev == (Event::Sold {
                    buyer,
                    kitty_id,
                    price: spec_buy_check(*old(self), buyer, kitty_id, max_price).unwrap(),
                }),
                Err(e) => spec_buy_check(*old(self), buyer, kitty_id, max_price) == Err::<
                    Balance,
                    Error,
                >(e) && *final(self) == *old(self),
            },
    {
        let price = match self.buy_kitty(buyer, kitty_id, max_price) {
            Ok(p) => p,
            Err(e) => {
                return Err(e);
            },
        };
        let ki = self.find_kitty(&kitty_id).unwrap();
        proof {
            old(self).lemma_kitty_index(ki as int, kitty_id@);
        }
        self.do_move(buyer, ki);
        Ok(Event::Sold { buyer, kitty_id, price })
    }
}

impl Pallet {
    /// Create: derive a fresh identifier for `who` from the host-provided
    /// entropy and the current counter, then mint it as
    /// [`Pallet::mint`] does.
    pub fn create_kitty(&mut self, who: AccountId, entropy: &[u8; 32]) -> (r: Result<Event, Error>)
        requires
            old(self).wf(),
        ensures
            final(self).wf(),
            exists|d: [u8; 32]|
                #![auto]
                d@ == spec_gen_dna(who, entropy@, old(self).count_for_kitties) && match r {
                    Ok(ev) => spec_mint_check(*old(self), who, d) is Ok && mint_ok_post(
                        *old(self),
                        *final(self),
                        who,
                        d,
                    ) && ev == (Event::Created { owner: who }),
                    Err(e) => spec_mint_check(*old(self), who, d) == Err::<(), Error>(e)
                        && *final(self) == *old(self),
                },
    {
        let dna = gen_dna(who, entropy, self.count_for_kitties);
        self.mint(who, dna)
    }

    /// The asset record with identifier `kitty_id`, if it exists.
    pub fn get_kitty(&self, kitty_id: &[u8; 32]) -> (r: Option<Kitty>)
        requires
            self.wf(),
        ensures
            match r {
                Some(k) => self.kitty_exists(kitty_id@) && k == self.kitty(kitty_id@),
                None => !self.kitty_exists(kitty_id@),
            },
    {
        match self.find_kitty(kitty_id) {
            Some(i) => {
                proof {
                    self.lemma_kitty_index(i as int, kitty_id@);
                }
                Some(self.kitties[i])
            },
            None => None,
        }
    }

    /// The current owner of `kitty_id`, if it exists; hosts use this to
    /// find the seller to credit during a purchase.
    pub fn owner_of(&self, kitty_id: &[u8; 32]) -> (r: Option<AccountId>)
        requires
            self.wf(),
        ensures
            match r {
                Some(a) => self.kitty_exists(kitty_id@) && a == self.kitty(kitty_id@).owner,
                None => !self.kitty_exists(kitty_id@),
            },
    {
        match self.get_kitty(kitty_id) {
            Some(k) => Some(k.owner),
            None => None,
        }
    }

    /// How many assets `who` currently holds.
    pub fn owned_count(&self, who: AccountId) -> (n: usize)
        requires
            self.wf(),
        ensures
            n == self.owned(who).len(),
    {
        match self.find_entry(who) {
            Some(e) => {
                proof {
                    self.lemma_entry_index(e as int, who);
                }
                self.kitties_owned[e].ids.len()
            },
            None => 0,
        }
    }
}

} // verus!
