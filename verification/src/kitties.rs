//! The kitties pallet: accounts create kitties with random DNA, breed new
//! ones from two kitties, and hand kitties to other accounts. Each account's
//! kitties are kept in its own linked list.
use crate::dispatch::{ensure_signed, signer, Origin};
use crate::dna::{breed_dna, mixed_dna, random_dna, random_value};
use crate::linked_list::{encodes, slice, LinkedItem, LinkedList};
use std::collections::BTreeMap;
use vstd::prelude::*;

verus! {

broadcast use {vstd::std_specs::btree::group_btree_axioms, vstd::laws_cmp::group_laws_cmp};

/// A kitty: sixteen bytes of DNA.
#[derive(Clone, Copy, Debug, PartialEq, Eq)]
pub struct Kitty(pub [u8; 16]);

/// Why a kitty call was refused.
#[derive(Clone, Copy, Debug, PartialEq, Eq, Structural)]
pub enum Error {
    /// The call was not signed by an account.
    BadOrigin,
    /// Every kitty index has been used.
    KittiesCountOverFlow,
    /// No kitty has the given index.
    InvalidKittyId,
    /// A kitty cannot be bred with itself.
    RequireDifferentParent,
    /// The sender's list of kitties does not hold the kitty.
    RequireOwner,
    /// The sender does not own the kitty.
    NotVerifyKittyOwner,
    /// The account owns no kitties.
    NoAccountKitties,
    /// The locker cannot afford to lock the amount requested.
    CannotAffordLock,
    /// The currency refused to move the funds, for the reason it gives.
    Currency(CurrencyError),
}

/// What the pallet reports of a call that went through.
#[derive(Clone, Copy, Debug, PartialEq, Eq, Structural)]
pub enum Event {
    /// (owner, kitty)
    Created(u64, u32),
    /// (from, to, kitty)
    Transferred(u64, u64, u32),
    /// (account, amount, block number)
    LockFunds(u64, u64, u64),
    /// (account, amount, block number)
    UnlockFunds(u64, u64, u64),
    /// (from, to, amount, block number)
    TransferFunds(u64, u64, u64, u64),
}

/// An error a currency reports; the funds calls pass it on as it is.
#[derive(Clone, Copy, Debug, PartialEq, Eq, Structural)]
pub struct CurrencyError(pub u64);

/// The balances the funds calls act on. The pallet does not keep balances
/// itself: they belong to whichever currency the runtime plugs in, which says
/// through the spec functions below what each call does.
pub trait Currency: Sized {
    /// Whether `who` can afford to set `amount` aside.
    spec fn can_reserve(&self, who: u64, amount: u64) -> bool;

    /// The currency after `amount` of `who` was set aside.
    spec fn after_reserve(&self, who: u64, amount: u64) -> Self;

    /// The part of `amount` that unreserving it for `who` leaves unmoved.
    spec fn unreserve_left(&self, who: u64, amount: u64) -> u64;

    /// The currency after up to `amount` of `who` was unreserved.
    spec fn after_unreserve(&self, who: u64, amount: u64) -> Self;

    /// What a transfer of `amount` from `from` to `to` answers.
    spec fn transfer_result(&self, from: u64, to: u64, amount: u64) -> Result<(), CurrencyError>;

    /// The currency after a transfer of `amount` from `from` to `to` was asked.
    spec fn after_transfer(&self, from: u64, to: u64, amount: u64) -> Self;

    /// Sets `amount` of the free balance of `who` aside; fails, moving
    /// nothing, where `who` cannot afford it.
    fn reserve(&mut self, who: u64, amount: u64) -> (r: Result<(), ()>)
        ensures
            r is Ok <==> old(self).can_reserve(who, amount),
            r is Ok ==> *final(self) == old(self).after_reserve(who, amount),
            r is Err ==> *final(self) == *old(self),
    ;

    /// Moves up to `amount` of the reserved balance of `who` back to its free
    /// balance, and returns the part of `amount` that could not be moved.
    fn unreserve(&mut self, who: u64, amount: u64) -> (left: u64)
        ensures
            left == old(self).unreserve_left(who, amount),
            left <= amount,
            *final(self) == old(self).after_unreserve(who, amount),
    ;

    /// A copy of the currency's state, which a call that fails part way is
    /// rolled back to.
    fn snapshot(&self) -> (r: Self)
        ensures
            r == *self,
    ;

    /// Moves `amount` of free balance from `from` to `to`.
    fn transfer(&mut self, from: u64, to: u64, amount: u64) -> (r: Result<(), CurrencyError>)
        ensures
            r == old(self).transfer_result(from, to, amount),
            *final(self) == old(self).after_transfer(from, to, amount),
    ;
}

/// The state of the pallet.
pub struct Module {
    kitties: BTreeMap<u32, Kitty>,
    kitties_count: u32,
    kitty_owners: BTreeMap<u32, u64>,
    owner_kitties: LinkedList,
    events: Vec<Event>,
}

impl Module {
    /// The kitties, by index.
    pub closed spec fn kitties_view(&self) -> Map<u32, Kitty> {
        self.kitties@
    }

    /// The number of kitties ever made, which is also the next index.
    pub closed spec fn count_view(&self) -> u32 {
        self.kitties_count
    }

    /// The owner of each kitty.
    pub closed spec fn owners_view(&self) -> Map<u32, u64> {
        self.kitty_owners@
    }

    /// The kitties that `acc` owns, in the order it got them.
    pub closed spec fn owned_view(&self, acc: u64) -> Seq<u32> {
        self.owner_kitties.list(acc)
    }

    /// The stored entries of the owners' linked lists.
    pub closed spec fn owner_list_storage(&self) -> Map<(u64, Option<u32>), LinkedItem> {
        self.owner_kitties.storage()
    }

    /// The events reported so far, oldest first.
    pub closed spec fn events_view(&self) -> Seq<Event> {
        self.events@
    }

    /// `other` holds the same kitties, owners, stored list entries and events
    /// as `self`.
    pub open spec fn same_state(&self, other: &Self) -> bool {
        &&& self.same_kitties(other)
        &&& self.events_view() == other.events_view()
    }

    /// The stored list entries of every account but `a` and `b` are those of
    /// `other`.
    pub open spec fn same_storage_except(&self, other: &Self, a: u64, b: u64) -> bool {
        forall|acc: u64|
            acc != a && acc != b ==> #[trigger] slice(self.owner_list_storage(), acc) == slice(
                other.owner_list_storage(),
                acc,
            )
    }

    /// The owners' lists are well formed: each account's stored entries form
    /// the linked list of the kitties it holds.
    pub closed spec fn lists_wf(&self) -> bool {
        self.owner_kitties.wf()
    }

    /// The full bookkeeping includes well-formed owners' lists.
    pub proof fn lemma_wf_lists(&self)
        requires
            self.wf(),
        ensures
            self.lists_wf(),
    {
    }

    /// Each account's stored entries are the linked list of its kitties: a head
    /// entry naming the last and the first, and for each kitty a node naming its
    /// neighbours.
    pub proof fn lemma_owner_lists_stored(&self, acc: u64)
        requires
            self.lists_wf(),
        ensures
            encodes(slice(self.owner_list_storage(), acc), self.owned_view(acc)),
            self.owned_view(acc).no_duplicates(),
    {
        self.owner_kitties.lemma_wf_at(acc);
    }

    /// The owners' lists of every account but `a` and `b` are those of `other`.
    pub open spec fn same_owned_except(&self, other: &Self, a: u64, b: u64) -> bool {
        forall|acc: u64| acc != a && acc != b ==> #[trigger] self.owned_view(acc) == other.owned_view(acc)
    }

    /// The bookkeeping holds for every kitty but `skip`: the kitties are those
    /// with an index below the count, each of them is recorded with an owner and
    /// sits in that owner's list, and a list holds only kitties its account owns.
    pub closed spec fn consistent_except(&self, skip: Option<u32>) -> bool {
        &&& self.owner_kitties.wf()
        &&& forall|v: u32| #[trigger] self.kitties@.contains_key(v) <==> v < self.kitties_count
        &&& forall|v: u32| #[trigger] self.kitty_owners@.contains_key(v) ==> v < self.kitties_count
        &&& forall|v: u32|
            v < self.kitties_count && Some(v) != skip ==> #[trigger] self.kitty_owners@.contains_key(v)
                && self.owner_kitties.list(self.kitty_owners@[v]).contains(v)
        &&& forall|acc: u64, v: u32| #[trigger]
            self.owner_kitties.list(acc).contains(v) ==> v < self.kitties_count && Some(v) != skip
                && self.kitty_owners@.contains_key(v) && self.kitty_owners@[v] == acc
    }

    /// The pallet's bookkeeping holds for every kitty.
    pub closed spec fn wf(&self) -> bool {
        self.consistent_except(None)
    }

    /// Kitty `id` exists and is in no owner's list; the bookkeeping holds for
    /// every other kitty.
    pub closed spec fn detached(&self, id: u32) -> bool {
        &&& self.consistent_except(Some(id))
        &&& id < self.kitties_count
    }

    /// A pallet with no kitties and no events.
    pub fn new() -> (r: Self)
        ensures
            r.wf(),
            r.lists_wf(),
            r.owner_list_storage() == Map::<(u64, Option<u32>), LinkedItem>::empty(),
            r.kitties_view() == Map::<u32, Kitty>::empty(),
            r.count_view() == 0,
            r.owners_view() == Map::<u32, u64>::empty(),
            forall|acc: u64| #[trigger] r.owned_view(acc) == Seq::<u32>::empty(),
            r.events_view() == Seq::<Event>::empty(),
    {
        Module {
            kitties: BTreeMap::new(),
            kitties_count: 0,
            kitty_owners: BTreeMap::new(),
            owner_kitties: LinkedList::new(),
            events: Vec::new(),
        }
    }

    /// Every kitty has exactly one owner, in whose list it sits, and every list
    /// holds only kitties that its account owns.
    pub proof fn lemma_ownership(&self)
        requires
            self.wf(),
        ensures
            forall|v: u32| #[trigger] self.kitties_view().contains_key(v) <==> v < self.count_view(),
            forall|v: u32| #[trigger]
                self.owners_view().contains_key(v) <==> self.kitties_view().contains_key(v),
            forall|v: u32|
                #[trigger] self.kitties_view().contains_key(v) ==> self.owned_view(
                    self.owners_view()[v],
                ).contains(v),
            forall|acc: u64, v: u32| #[trigger]
                self.owned_view(acc).contains(v) ==> self.kitties_view().contains_key(v)
                    && self.owners_view()[v] == acc,
            forall|acc: u64| #[trigger] self.owned_view(acc).no_duplicates(),
    {
        assert forall|v: u32| #[trigger] self.kitties_view().contains_key(v) implies self.owned_view(
            self.owners_view()[v],
        ).contains(v) by {
            assert(self.kitty_owners@.contains_key(v));
        }
        assert forall|v: u32| #[trigger] self.owners_view().contains_key(v) <==> self.kitties_view().contains_key(v) by {
            if self.kitties_view().contains_key(v) {
                assert(self.kitty_owners@.contains_key(v));
            }
        }
        assert forall|acc: u64| #[trigger] self.owned_view(acc).no_duplicates() by {
            self.owner_kitties.lemma_list_no_duplicates(acc);
        }
    }

    /// The kitty with index `id`, if there is one.
    pub fn kitties(&self, id: u32) -> (r: Option<Kitty>)
        ensures
            r == (if self.kitties_view().contains_key(id) {
                Some(self.kitties_view()[id])
            } else {
                None
            }),
    {
        match self.kitties.get(&id) {
            Some(k) => Some(*k),
            None => None,
        }
    }

    /// The number of kitties made so far.
    pub fn kitties_count(&self) -> (r: u32)
        ensures
            r == self.count_view(),
    {
        self.kitties_count
    }

    /// The owner of kitty `id`, if there is one.
    pub fn kitty_owner(&self, id: u32) -> (r: Option<u64>)
        ensures
            r == (if self.owners_view().contains_key(id) {
                Some(self.owners_view()[id])
            } else {
                None
            }),
    {
        match self.kitty_owners.get(&id) {
            Some(o) => Some(*o),
            None => None,
        }
    }

    /// The stored list entry of `acc` at `at` (`None` for the list's head).
    pub fn owner_kitties(&self, acc: u64, at: Option<u32>) -> (r: Option<LinkedItem>)
        ensures
            r == (if self.owner_list_storage().contains_key((acc, at)) {
                Some(self.owner_list_storage()[(acc, at)])
            } else {
                None
            }),
    {
        self.owner_kitties.get(acc, at)
    }

    /// The events reported so far.
    pub fn events(&self) -> (r: &Vec<Event>)
        ensures
            r@ == self.events_view(),
    {
        &self.events
    }

    /// The index the next kitty gets, unless every index has been used.
    pub fn next_kitty_id(&self) -> (r: Result<u32, Error>)
        ensures
            r == (if self.count_view() == u32::MAX {
                Err::<u32, Error>(Error::KittiesCountOverFlow)
            } else {
                Ok::<u32, Error>(self.count_view())
            }),
    {
        let kitty_id = self.kitties_count;
        if kitty_id == u32::MAX {
            return Err(Error::KittiesCountOverFlow);
        }
        Ok(kitty_id)
    }

    /// The list of `owner` with `kitty_id` appended, and nothing else of the
    /// lists, kitties, stored entries or events changed.
    pub open spec fn appended(&self, other: &Self, owner: u64, kitty_id: u32) -> bool {
        &&& self.owned_view(owner) == other.owned_view(owner).push(kitty_id)
        &&& self.same_owned_except(other, owner, owner)
        &&& self.owner_list_storage().contains_key((owner, Some(kitty_id)))
        &&& self.same_storage_except(other, owner, owner)
    }

    /// Gives kitty `kitty_id` to `owner`: appends it to the owner's list and
    /// records the owner. A list it sits in already, of another account, keeps
    /// it.
    pub fn insert_owner_kitty(&mut self, owner: u64, kitty_id: u32)
        requires
            old(self).lists_wf(),
            !old(self).owned_view(owner).contains(kitty_id),
        ensures
            final(self).lists_wf(),
            final(self).appended(&*old(self), owner, kitty_id),
            final(self).owners_view() == old(self).owners_view().insert(kitty_id, owner),
            final(self).kitties_view() == old(self).kitties_view(),
            final(self).count_view() == old(self).count_view(),
            final(self).events_view() == old(self).events_view(),
            old(self).detached(kitty_id) ==> final(self).wf(),
    {
        let ghost before = *self;
        self.owner_kitties.append(owner, kitty_id);
        self.kitty_owners.insert(kitty_id, owner);
        proof {
            if before.detached(kitty_id) {
                assert forall|acc: u64, v: u32| #[trigger]
                    self.owner_kitties.list(acc).contains(v) implies v < self.kitties_count
                    && self.kitty_owners@.contains_key(v) && self.kitty_owners@[v] == acc by {
                    if acc == owner {
                        let s = before.owner_kitties.list(owner);
                        if v != kitty_id {
                            let j = choose|j: int| 0 <= j < s.len() + 1 && s.push(kitty_id)[j] == v;
                            assert(s[j] == v);
                            assert(s.contains(v));
                        }
                    } else {
                        assert(before.owner_kitties.list(acc).contains(v));
                    }
                }
                assert forall|v: u32| v < self.kitties_count implies #[trigger] self.kitty_owners@.contains_key(
                    v,
                ) && self.owner_kitties.list(self.kitty_owners@[v]).contains(v) by {
                    if v == kitty_id {
                        let s = before.owner_kitties.list(owner);
                        assert(s.push(kitty_id)[s.len() as int] == kitty_id);
                    } else {
                        assert(before.kitty_owners@.contains_key(v));
                        let o = before.kitty_owners@[v];
                        assert(before.owner_kitties.list(o).contains(v));
                        if o == owner {
                            let s = before.owner_kitties.list(owner);
                            let j = choose|j: int| 0 <= j < s.len() && s[j] == v;
                            assert(s.push(kitty_id)[j] == v);
                        }
                    }
                }
            }
        }
    }

    /// Stores `kitty` under `kitty_id`, sets the count to the index after it,
    /// and gives the kitty to `owner`.
    pub fn insert_kitty(&mut self, owner: u64, kitty_id: u32, kitty: Kitty)
        requires
            old(self).lists_wf(),
            kitty_id < u32::MAX,
            !old(self).owned_view(owner).contains(kitty_id),
        ensures
            final(self).lists_wf(),
            final(self).kitties_view() == old(self).kitties_view().insert(kitty_id, kitty),
            final(self).count_view() == kitty_id + 1,
            final(self).owners_view() == old(self).owners_view().insert(kitty_id, owner),
            final(self).appended(&*old(self), owner, kitty_id),
            final(self).events_view() == old(self).events_view(),
            old(self).wf() && kitty_id == old(self).count_view() ==> final(self).wf(),
    {
        let ghost before = *self;
        self.kitties.insert(kitty_id, kitty);
        self.kitties_count = kitty_id + 1;
        proof {
            if before.wf() && kitty_id == before.kitties_count {
                assert forall|acc: u64, v: u32| #[trigger]
                    self.owner_kitties.list(acc).contains(v) implies v < self.kitties_count && Some(v)
                    != Some(kitty_id) && self.kitty_owners@.contains_key(v) && self.kitty_owners@[v]
                    == acc by {
                    assert(before.owner_kitties.list(acc).contains(v));
                }
                assert(self.detached(kitty_id));
            }
        }
        self.insert_owner_kitty(owner, kitty_id);
    }

    /// Moves kitty `kitty_id` out of the list of `from` (where it sits there)
    /// to the end of the list of `to`, and records `to` as its owner.
    pub fn transfer_owner_kitty(&mut self, from: u64, to: u64, kitty_id: u32)
        requires
            old(self).lists_wf(),
            to == from || !old(self).owned_view(to).contains(kitty_id),
        ensures
            final(self).lists_wf(),
            final(self).kitty_moved(&*old(self), from, to, kitty_id),
            final(self).events_view() == old(self).events_view(),
            old(self).wf() && old(self).owners_view().contains_key(kitty_id) && old(
                self,
            ).owners_view()[kitty_id] == from ==> final(self).wf(),
    {
        let ghost before = self.owner_kitties.list(from);
        let ghost start = *self;
        proof {
            self.owner_kitties.lemma_list_no_duplicates(from);
        }
        self.owner_kitties.remove(from, kitty_id);
        proof {
            let i = before.index_of(kitty_id);
            let rest = before.remove(i);
            if before.contains(kitty_id) {
                assert(0 <= i < before.len() && before[i] == kitty_id);
                assert(!rest.contains(kitty_id)) by {
                    if rest.contains(kitty_id) {
                        let j = choose|j: int| 0 <= j < rest.len() && rest[j] == kitty_id;
                        let j2 = if j < i { j } else { j + 1 };
                        assert(before[j2] == kitty_id);
                    }
                }
            }
            if start.wf() && start.kitty_owners@.contains_key(kitty_id) && start.kitty_owners@[kitty_id] == from {
                assert(before.contains(kitty_id));
                assert(0 <= i < before.len() && before[i] == kitty_id);
                assert forall|acc: u64, v: u32| #[trigger]
                    self.owner_kitties.list(acc).contains(v) implies v < self.kitties_count && Some(v)
                    != Some(kitty_id) && self.kitty_owners@.contains_key(v) && self.kitty_owners@[v]
                    == acc by {
                    if acc == from {
                        let j = choose|j: int| 0 <= j < rest.len() && rest[j] == v;
                        let j2 = if j < i { j } else { j + 1 };
                        assert(before[j2] == v);
                        assert(j2 != i);
                        assert(before.contains(v));
                    } else {
                        assert(start.owner_kitties.list(acc).contains(v));
                    }
                }
                assert forall|v: u32| v < self.kitties_count && Some(v) != Some(kitty_id) implies #[trigger] self.kitty_owners@.contains_key(
                    v,
                ) && self.owner_kitties.list(self.kitty_owners@[v]).contains(v) by {
                    assert(start.kitty_owners@.contains_key(v));
                    let o = start.kitty_owners@[v];
                    assert(start.owner_kitties.list(o).contains(v));
                    if o == from {
                        let j = choose|j: int| 0 <= j < before.len() && before[j] == v;
                        assert(j != i);
                        let j2 = if j < i { j } else { j - 1 };
                        assert(rest[j2] == v);
                    }
                }
                assert(self.kitty_owners@.contains_key(kitty_id));
                assert(self.owner_kitties.wf());
                assert(forall|v: u32| #[trigger] self.kitties@.contains_key(v) <==> v < self.kitties_count);
                assert(forall|v: u32| #[trigger] self.kitty_owners@.contains_key(v) ==> v < self.kitties_count);
                assert(self.consistent_except(Some(kitty_id)));
                assert(self.detached(kitty_id));
            }
        }
        let ghost mid = self.owner_list_storage();
        self.insert_owner_kitty(to, kitty_id);
        proof {
            if to != from {
                assert(!slice(mid, from).contains_key(Some(kitty_id)));
                assert(slice(self.owner_list_storage(), from) == slice(mid, from));
            }
        }
    }

    /// `self` holds the kitties, owners, lists and stored list entries of `other`.
    pub open spec fn same_kitties(&self, other: &Self) -> bool {
        &&& self.kitties_view() == other.kitties_view()
        &&& self.count_view() == other.count_view()
        &&& self.owners_view() == other.owners_view()
        &&& forall|acc: u64| #[trigger] self.owned_view(acc) == other.owned_view(acc)
        &&& self.owner_list_storage() == other.owner_list_storage()
    }

    /// `self` is `other` with one new kitty of DNA `dna`, under the index
    /// `other` would give next, owned by `owner` and appended to its list.
    pub open spec fn kitty_added(&self, other: &Self, owner: u64, dna: Seq<u8>) -> bool {
        let id = other.count_view();
        &&& self.kitties_view().dom() == other.kitties_view().dom().insert(id)
        &&& forall|v: u32| v != id && #[trigger] other.kitties_view().contains_key(v) ==> self.kitties_view()[v] == other.kitties_view()[v]
        &&& self.kitties_view()[id].0@ == dna
        &&& self.count_view() == id + 1
        &&& self.owners_view() == other.owners_view().insert(id, owner)
        &&& self.appended(other, owner, id)
    }

    /// `self` is `other` after kitty `id` went from `from` to `to`.
    pub open spec fn kitty_moved(&self, other: &Self, from: u64, to: u64, id: u32) -> bool {
        let before = other.owned_view(from);
        let rest = if before.contains(id) {
            before.remove(before.index_of(id))
        } else {
            before
        };
        &&& self.owned_view(to) == (if to == from {
            rest
        } else {
            other.owned_view(to)
        }).push(id)
        &&& to != from ==> self.owned_view(from) == rest
        &&& self.same_owned_except(other, from, to)
        &&& self.owner_list_storage().contains_key((to, Some(id)))
        &&& to != from ==> !self.owner_list_storage().contains_key((from, Some(id)))
        &&& self.same_storage_except(other, from, to)
        &&& self.owners_view() == other.owners_view().insert(id, to)
        &&& self.kitties_view() == other.kitties_view()
        &&& self.count_view() == other.count_view()
    }

    /// Reports `event`.
    fn deposit_event(&mut self, event: Event)
        requires
            old(self).wf(),
        ensures
            final(self).wf(),
            final(self).same_kitties(&*old(self)),
            final(self).events_view() == old(self).events_view().push(event),
    {
        self.events.push(event);
    }

    /// Creates a kitty for the signer of `origin`, with DNA hashed from the
    /// chain's random `seed`, the signer and the index of the extrinsic.
    pub fn create(&mut self, origin: Origin, seed: [u8; 32], extrinsic_index: Option<u32>) -> (r: Result<(), Error>)
        requires
            old(self).wf(),
        ensures
            final(self).wf(),
            match signer(origin) {
                None => r == Err::<(), Error>(Error::BadOrigin) && final(self).same_state(&*old(self)),
                Some(sender) => if old(self).count_view() == u32::MAX {
                    r == Err::<(), Error>(Error::KittiesCountOverFlow) && final(self).same_state(&*old(self))
                } else {
                    &&& r == Ok::<(), Error>(())
                    &&& final(self).kitty_added(&*old(self), sender, random_dna(seed@, sender, extrinsic_index))
                    &&& final(self).events_view() == old(self).events_view().push(Event::Created(sender, old(self).count_view()))
                },
            },
    {
        let sender = match ensure_signed(origin) {
            Ok(who) => who,
            Err(_) => return Err(Error::BadOrigin),
        };
        let kitty_id = match self.next_kitty_id() {
            Ok(id) => id,
            Err(e) => return Err(e),
        };
        let dna = random_value(&seed, sender, extrinsic_index);
        let kitty = Kitty(dna);
        self.insert_kitty(sender, kitty_id, kitty);
        self.deposit_event(Event::Created(sender, kitty_id));
        Ok(())
    }

    /// Hands kitty `kitty_id` from the signer of `origin`, its owner, to `to`.
    pub fn transfer(&mut self, origin: Origin, to: u64, kitty_id: u32) -> (r: Result<(), Error>)
        requires
            old(self).wf(),
        ensures
            final(self).wf(),
            match signer(origin) {
                None => r == Err::<(), Error>(Error::BadOrigin) && final(self).same_state(&*old(self)),
                Some(sender) => if !old(self).owners_view().contains_key(kitty_id) {
                    r == Err::<(), Error>(Error::InvalidKittyId) && final(self).same_state(&*old(self))
                } else if old(self).owners_view()[kitty_id] != sender {
                    r == Err::<(), Error>(Error::NotVerifyKittyOwner) && final(self).same_state(&*old(self))
                } else {
                    &&& r == Ok::<(), Error>(())
                    &&& final(self).kitty_moved(&*old(self), sender, to, kitty_id)
                    &&& final(self).events_view() == old(self).events_view().push(Event::Transferred(sender, to, kitty_id))
                },
            },
    {
        let sender = match ensure_signed(origin) {
            Ok(who) => who,
            Err(_) => return Err(Error::BadOrigin),
        };
        let owner = match self.kitty_owner(kitty_id) {
            Some(o) => o,
            None => return Err(Error::InvalidKittyId),
        };
        if owner != sender {
            return Err(Error::NotVerifyKittyOwner);
        }
        proof {
            assert(self.kitty_owners@.contains_key(kitty_id));
        }
        if !self.owner_kitties.contains(sender, kitty_id) {
            return Err(Error::RequireOwner);
        }
        self.transfer_owner_kitty(sender, to, kitty_id);
        self.deposit_event(Event::Transferred(sender, to, kitty_id));
        Ok(())
    }

    /// Breeds a kitty for the signer of `origin` from kitties `kitty_id_1` and
    /// `kitty_id_2`.
    pub fn breed(
        &mut self,
        origin: Origin,
        kitty_id_1: u32,
        kitty_id_2: u32,
        seed: [u8; 32],
        extrinsic_index: Option<u32>,
    ) -> (r: Result<(), Error>)
        requires
            old(self).wf(),
        ensures
            final(self).wf(),
            match signer(origin) {
                None => r == Err::<(), Error>(Error::BadOrigin) && final(self).same_state(&*old(self)),
                Some(sender) => match old(self).breed_refusal(kitty_id_1, kitty_id_2) {
                    Some(e) => r == Err::<(), Error>(e) && final(self).same_state(&*old(self)),
                    None => {
                        &&& r == Ok::<(), Error>(())
                        &&& final(self).kitty_added(&*old(self), sender, old(self).child_dna(kitty_id_1, kitty_id_2, random_dna(seed@, sender, extrinsic_index)))
                        &&& final(self).events_view() == old(self).events_view().push(Event::Created(sender, old(self).count_view()))
                    },
                },
            },
            // A signed breed goes through exactly for two existing kitties with
            // different ids while an index is left, whoever owns them.
            r is Ok <==> signer(origin) is Some && old(self).kitties_view().contains_key(kitty_id_1)
                && old(self).kitties_view().contains_key(kitty_id_2) && kitty_id_1 != kitty_id_2
                && old(self).count_view() < u32::MAX,
            r is Ok ==> final(self).count_view() == old(self).count_view() + 1
                && final(self).owners_view()[old(self).count_view()] == signer(origin).unwrap()
                && final(self).events_view() == old(self).events_view().push(
                    Event::Created(signer(origin).unwrap(), old(self).count_view()),
                ),
            r == Err::<(), Error>(Error::RequireDifferentParent) <==> signer(origin) is Some
                && old(self).kitties_view().contains_key(kitty_id_1) && kitty_id_1 == kitty_id_2,
            r == Err::<(), Error>(Error::InvalidKittyId) <==> signer(origin) is Some && (
                !old(self).kitties_view().contains_key(kitty_id_1)
                || !old(self).kitties_view().contains_key(kitty_id_2)),
            r is Err ==> final(self).same_state(&*old(self)),
    {
        let sender = match ensure_signed(origin) {
            Ok(who) => who,
            Err(_) => return Err(Error::BadOrigin),
        };
        let new_kitty_id = match self.do_breed(sender, kitty_id_1, kitty_id_2, &seed, extrinsic_index) {
            Ok(id) => id,
            Err(e) => return Err(e),
        };
        self.deposit_event(Event::Created(sender, new_kitty_id));
        Ok(())
    }

    /// Why breeding `kitty_id_1` with `kitty_id_2` is refused, if it is.
    pub open spec fn breed_refusal(&self, kitty_id_1: u32, kitty_id_2: u32) -> Option<Error> {
        if !self.kitties_view().contains_key(kitty_id_1) || !self.kitties_view().contains_key(kitty_id_2) {
            Some(Error::InvalidKittyId)
        } else if kitty_id_1 == kitty_id_2 {
            Some(Error::RequireDifferentParent)
        } else if self.count_view() == u32::MAX {
            Some(Error::KittiesCountOverFlow)
        } else {
            None
        }
    }

    /// Breeding is refused exactly where a parent does not exist, the two
    /// parents are one kitty, or every index is used; whoever owns them.
    pub proof fn lemma_breed_refused_exactly(&self, kitty_id_1: u32, kitty_id_2: u32)
        ensures
            self.breed_refusal(kitty_id_1, kitty_id_2) is None <==> self.kitties_view().contains_key(
                kitty_id_1,
            ) && self.kitties_view().contains_key(kitty_id_2) && kitty_id_1 != kitty_id_2
                && self.count_view() < u32::MAX,
            self.breed_refusal(kitty_id_1, kitty_id_2) == Some(Error::RequireDifferentParent)
                <==> self.kitties_view().contains_key(kitty_id_1) && self.kitties_view().contains_key(
                kitty_id_2,
            ) && kitty_id_1 == kitty_id_2,
    {
    }

    /// The DNA of the child of kitties `kitty_id_1` and `kitty_id_2` under `selector`.
    pub open spec fn child_dna(&self, kitty_id_1: u32, kitty_id_2: u32, selector: Seq<u8>) -> Seq<u8> {
        mixed_dna(self.kitties_view()[kitty_id_1].0@, self.kitties_view()[kitty_id_2].0@, selector)
    }

    /// Breeds a kitty for `sender` from two existing kitties and returns its
    /// index: each gene is mixed from the parents' under random bytes drawn as
    /// for a new kitty.
    pub fn do_breed(
        &mut self,
        sender: u64,
        kitty_id_1: u32,
        kitty_id_2: u32,
        seed: &[u8; 32],
        extrinsic_index: Option<u32>,
    ) -> (r: Result<u32, Error>)
        requires
            old(self).wf(),
        ensures
            final(self).wf(),
            match old(self).breed_refusal(kitty_id_1, kitty_id_2) {
                Some(e) => r == Err::<u32, Error>(e) && final(self).same_state(&*old(self)),
                None => {
                    &&& r == Ok::<u32, Error>(old(self).count_view())
                    &&& final(self).kitty_added(&*old(self), sender, old(self).child_dna(kitty_id_1, kitty_id_2, random_dna(seed@, sender, extrinsic_index)))
                    &&& final(self).events_view() == old(self).events_view()
                },
            },
            // Breeding goes through exactly for two existing kitties with
            // different ids while an index is left, whoever owns them.
            r is Ok <==> old(self).kitties_view().contains_key(kitty_id_1)
                && old(self).kitties_view().contains_key(kitty_id_2) && kitty_id_1 != kitty_id_2
                && old(self).count_view() < u32::MAX,
            r is Ok ==> r == Ok::<u32, Error>(old(self).count_view())
                && final(self).kitties_view().contains_key(old(self).count_view())
                && final(self).owners_view()[old(self).count_view()] == sender
                && final(self).count_view() == old(self).count_view() + 1,
            r == Err::<u32, Error>(Error::InvalidKittyId) <==> !old(self).kitties_view().contains_key(kitty_id_1)
                || !old(self).kitties_view().contains_key(kitty_id_2),
            r == Err::<u32, Error>(Error::RequireDifferentParent) <==> old(self).kitties_view().contains_key(kitty_id_1)
                && old(self).kitties_view().contains_key(kitty_id_2) && kitty_id_1 == kitty_id_2,
            r == Err::<u32, Error>(Error::KittiesCountOverFlow) <==> old(self).kitties_view().contains_key(kitty_id_1)
                && old(self).kitties_view().contains_key(kitty_id_2) && kitty_id_1 != kitty_id_2
                && old(self).count_view() == u32::MAX,
            r is Err ==> final(self).same_state(&*old(self)),
    {
        let kitty1 = match self.kitties(kitty_id_1) {
            Some(k) => k,
            None => return Err(Error::InvalidKittyId),
        };
        let kitty2 = match self.kitties(kitty_id_2) {
            Some(k) => k,
            None => return Err(Error::InvalidKittyId),
        };
        if kitty_id_1 == kitty_id_2 {
            return Err(Error::RequireDifferentParent);
        }
        let kitty_id = match self.next_kitty_id() {
            Ok(id) => id,
            Err(e) => return Err(e),
        };
        let selector = random_value(seed, sender, extrinsic_index);
        let new_dna = breed_dna(&kitty1.0, &kitty2.0, &selector);
        self.insert_kitty(sender, kitty_id, Kitty(new_dna));
        Ok(kitty_id)
    }

    /// Sets `amount` of the signer's funds aside.
    pub fn reserve_funds<C: Currency>(&mut self, currency: &mut C, origin: Origin, amount: u64, now: u64) -> (r: Result<(), Error>)
        requires
            old(self).wf(),
        ensures
            final(self).wf(),
            final(self).same_kitties(&*old(self)),
            match signer(origin) {
                None => {
                    &&& r == Err::<(), Error>(Error::BadOrigin)
                    &&& final(self).events_view() == old(self).events_view()
                    &&& *final(currency) == *old(currency)
                },
                Some(locker) => if old(currency).can_reserve(locker, amount) {
                    &&& r == Ok::<(), Error>(())
                    &&& *final(currency) == old(currency).after_reserve(locker, amount)
                    &&& final(self).events_view() == old(self).events_view().push(Event::LockFunds(locker, amount, now))
                } else {
                    &&& r == Err::<(), Error>(Error::CannotAffordLock)
                    &&& *final(currency) == *old(currency)
                    &&& final(self).events_view() == old(self).events_view()
                },
            },
    {
        let locker = match ensure_signed(origin) {
            Ok(who) => who,
            Err(_) => return Err(Error::BadOrigin),
        };
        match currency.reserve(locker, amount) {
            Ok(()) => {},
            Err(()) => return Err(Error::CannotAffordLock),
        }
        self.deposit_event(Event::LockFunds(locker, amount, now));
        Ok(())
    }

    /// Moves up to `amount` of the signer's reserved funds back to its free
    /// funds; this always goes through.
    pub fn unreserve_funds<C: Currency>(&mut self, currency: &mut C, origin: Origin, amount: u64, now: u64) -> (r: Result<(), Error>)
        requires
            old(self).wf(),
        ensures
            final(self).wf(),
            final(self).same_kitties(&*old(self)),
            match signer(origin) {
                None => {
                    &&& r == Err::<(), Error>(Error::BadOrigin)
                    &&& final(self).events_view() == old(self).events_view()
                    &&& *final(currency) == *old(currency)
                },
                Some(unlocker) => {
                    &&& r == Ok::<(), Error>(())
                    &&& *final(currency) == old(currency).after_unreserve(unlocker, amount)
                    &&& final(self).events_view() == old(self).events_view().push(Event::UnlockFunds(unlocker, amount, now))
                },
            },
    {
        let unlocker = match ensure_signed(origin) {
            Ok(who) => who,
            Err(_) => return Err(Error::BadOrigin),
        };
        let _ = currency.unreserve(unlocker, amount);
        self.deposit_event(Event::UnlockFunds(unlocker, amount, now));
        Ok(())
    }

    /// Moves `amount` of the signer's funds to `dest`.
    pub fn transfer_funds<C: Currency>(&mut self, currency: &mut C, origin: Origin, dest: u64, amount: u64, now: u64) -> (r: Result<(), Error>)
        requires
            old(self).wf(),
        ensures
            final(self).wf(),
            final(self).same_kitties(&*old(self)),
            match signer(origin) {
                None => {
                    &&& r == Err::<(), Error>(Error::BadOrigin)
                    &&& final(self).events_view() == old(self).events_view()
                    &&& *final(currency) == *old(currency)
                },
                Some(sender) => {
                    &&& *final(currency) == old(currency).after_transfer(sender, dest, amount)
                    &&& match old(currency).transfer_result(sender, dest, amount) {
                        Ok(()) => {
                            &&& r == Ok::<(), Error>(())
                            &&& final(self).events_view() == old(self).events_view().push(Event::TransferFunds(sender, dest, amount, now))
                        },
                        Err(e) => {
                            &&& r == Err::<(), Error>(Error::Currency(e))
                            &&& final(self).events_view() == old(self).events_view()
                        },
                    }
                },
            },
    {
        let sender = match ensure_signed(origin) {
            Ok(who) => who,
            Err(_) => return Err(Error::BadOrigin),
        };
        match currency.transfer(sender, dest, amount) {
            Ok(()) => {},
            Err(e) => return Err(Error::Currency(e)),
        }
        self.deposit_event(Event::TransferFunds(sender, dest, amount, now));
        Ok(())
    }

    /// Atomically releases up to `collateral` of the reserved funds of
    /// `to_punish` and moves what was released (`collateral` less what could
    /// not be released) to `dest`: where the move is refused, the currency is
    /// rolled back to what it was before the call. Any signed origin may call it.
    pub fn unreserve_and_transfer<C: Currency>(
        &mut self,
        currency: &mut C,
        origin: Origin,
        to_punish: u64,
        dest: u64,
        collateral: u64,
        now: u64,
    ) -> (r: Result<(), Error>)
        requires
            old(self).wf(),
        ensures
            final(self).wf(),
            final(self).same_kitties(&*old(self)),
            match signer(origin) {
                None => {
                    &&& r == Err::<(), Error>(Error::BadOrigin)
                    &&& final(self).events_view() == old(self).events_view()
                    &&& *final(currency) == *old(currency)
                },
                Some(_) => {
                    let released = old(currency).after_unreserve(to_punish, collateral);
                    let moved = (collateral - old(currency).unreserve_left(to_punish, collateral)) as u64;
                    match released.transfer_result(to_punish, dest, moved) {
                        Ok(()) => {
                            &&& r == Ok::<(), Error>(())
                            &&& *final(currency) == released.after_transfer(to_punish, dest, moved)
                            &&& final(self).events_view() == old(self).events_view().push(Event::TransferFunds(to_punish, dest, moved, now))
                        },
                        Err(e) => {
                            &&& r == Err::<(), Error>(Error::Currency(e))
                            &&& *final(currency) == *old(currency)
                            &&& final(self).events_view() == old(self).events_view()
                        },
                    }
                },
            },
    {
        let _ = match ensure_signed(origin) {
            Ok(who) => who,
            Err(_) => return Err(Error::BadOrigin),
        };
        let before = currency.snapshot();
        let overdraft = currency.unreserve(to_punish, collateral);
        let moved = collateral - overdraft;
        match currency.transfer(to_punish, dest, moved) {
            Ok(()) => {},
            Err(e) => {
                *currency = before;
                return Err(Error::Currency(e));
            },
        }
        self.deposit_event(Event::TransferFunds(to_punish, dest, moved, now));
        Ok(())
    }
}

} // verus!
