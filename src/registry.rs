//! The registry: which kitties exist, who owns them, and their lineage.
//! Each transition validates everything it needs before it writes anything, so
//! a failed transition leaves the registry and the ledger as they were.

use std::collections::HashMap;
use vstd::prelude::*;

use crate::currency::{ledger_unchanged, saturated_free, stake_reserved, Trait};
use crate::genome::{combine_genomes, crossed, derived_dna, random_dna, Kitty};
use crate::keys::{
    account_index_key, account_index_view, index_pair_key, index_pair_view,
    lemma_account_index_view_insert, lemma_account_index_view_remove,
    lemma_index_pair_view_insert, pack_account_index, pack_index_pair,
};

verus! {

broadcast use vstd::std_specs::hash::group_hash_axioms;

/// Why a transition was refused.
#[derive(Clone, Copy, Debug, PartialEq, Eq, Structural)]
pub enum Error {
    /// Every kitty index has been handed out.
    KittiesCountOverflow,
    /// No kitty has the given index.
    KittyNotExists,
    /// The caller does not own the kitty.
    KittyNotOwner,
    /// A kitty cannot breed with itself.
    RequiredDiffrentParent,
    /// The ledger declined to reserve the stake.
    MoneyNotEnough,
    /// A kitty cannot be transferred to its own owner.
    TransferSelf,
}

/// What the registry reports of a transition that went through.
#[derive(Clone, Copy, Debug, PartialEq, Eq, Structural)]
pub enum Event {
    /// An account came to own a new kitty.
    Created(u64, u32),
    /// A kitty passed from the first account to the second.
    Transferred(u64, u64, u32),
}

/// Whether `p` is one of the two parents recorded in `parent`.
pub open spec fn has_parent(parent: Option<(u32, u32)>, p: u32) -> bool {
    match parent {
        Some((a, b)) => a == p || b == p,
        None => false,
    }
}

/// Whether some kitty in `parents` was bred from `a` and `b`, in either order.
pub open spec fn have_mated(parents: Seq<Option<(u32, u32)>>, a: u32, b: u32) -> bool {
    exists|c: int|
        0 <= c < parents.len() && (#[trigger] parents[c] == Some((a, b)) || parents[c] == Some(
            (b, a),
        ))
}

/// `parents` with one more kitty bred from `parent` is mated on a pair
/// exactly where `parents` was, or where the pair is that kitty's parents.
proof fn lemma_have_mated_push(
    parents: Seq<Option<(u32, u32)>>,
    parent: Option<(u32, u32)>,
    a: u32,
    b: u32,
)
    ensures
        have_mated(parents.push(parent), a, b) == (have_mated(parents, a, b) || parent == Some(
            (a, b),
        ) || parent == Some((b, a))),
{
    let pushed = parents.push(parent);
    if have_mated(parents, a, b) {
        let c = choose|c: int|
            0 <= c < parents.len() && (#[trigger] parents[c] == Some((a, b)) || parents[c]
                == Some((b, a)));
        assert(pushed[c] == parents[c]);
    }
    if parent == Some((a, b)) || parent == Some((b, a)) {
        assert(pushed[parents.len() as int] == parent);
    }
    if have_mated(pushed, a, b) {
        let c = choose|c: int|
            0 <= c < pushed.len() && (#[trigger] pushed[c] == Some((a, b)) || pushed[c] == Some(
                (b, a),
            ));
        if c < parents.len() {
            assert(pushed[c] == parents[c]);
        }
    }
}

/// `post` is `pre` with one more kitty: index `id`, genome `dna`, owned by
/// `owner`, bred from `parent` when that is some pair of kitties. The
/// children index then gains the kitty under both parents, and the partners
/// index the parents under each other.
pub open spec fn kitty_added(
    pre: Module,
    post: Module,
    owner: u64,
    id: u32,
    dna: Seq<u8>,
    parent: Option<(u32, u32)>,
) -> bool {
    &&& id as nat == pre.spec_count()
    &&& post.spec_count() == pre.spec_count() + 1
    &&& post.spec_genomes() == pre.spec_genomes().push(dna)
    &&& post.spec_owners() == pre.spec_owners().push(owner)
    &&& post.spec_owned() == pre.spec_owned().insert((owner, id), id)
    &&& post.spec_parents() == pre.spec_parents().push(parent)
    &&& post.spec_children() == match parent {
        Some((a, b)) => pre.spec_children().insert((a, id), id).insert((b, id), id),
        None => pre.spec_children(),
    }
    &&& post.spec_partners() == match parent {
        Some((a, b)) => pre.spec_partners().insert((a, b), b).insert((b, a), a),
        None => pre.spec_partners(),
    }
    &&& post.spec_reserve() == pre.spec_reserve()
}

/// `post` is `pre` with kitty `id` passed from `from` to `to`: its owner
/// and the two owned-sets change, nothing else.
pub open spec fn kitty_transferred(pre: Module, post: Module, from: u64, to: u64, id: u32) -> bool {
    &&& post.spec_count() == pre.spec_count()
    &&& post.spec_genomes() == pre.spec_genomes()
    &&& post.spec_owners() == pre.spec_owners().update(id as int, to)
    &&& post.spec_owned() == pre.spec_owned().remove((from, id)).insert((to, id), id)
    &&& post.spec_parents() == pre.spec_parents()
    &&& post.spec_children() == pre.spec_children()
    &&& post.spec_partners() == pre.spec_partners()
    &&& post.spec_reserve() == pre.spec_reserve()
}

/// The first validation step that refuses `transfer(sender, dest, kitty_id)`
/// before the stake is asked for, if any does.
pub open spec fn transfer_refusal(m: Module, sender: u64, dest: u64, kitty_id: u32) -> Option<
    Error,
> {
    if kitty_id >= m.spec_count() {
        Some(Error::KittyNotExists)
    } else if m.spec_owners()[kitty_id as int] != sender {
        Some(Error::KittyNotOwner)
    } else if dest == sender {
        Some(Error::TransferSelf)
    } else {
        None
    }
}

/// The first validation step that refuses `breed(owner, kitty_id1,
/// kitty_id2)` before the stake is asked for, if any does.
pub open spec fn breed_refusal(m: Module, owner: u64, kitty_id1: u32, kitty_id2: u32) -> Option<
    Error,
> {
    if kitty_id1 == kitty_id2 {
        Some(Error::RequiredDiffrentParent)
    } else if kitty_id1 >= m.spec_count() || kitty_id2 >= m.spec_count() {
        Some(Error::KittyNotExists)
    } else if m.spec_owners()[kitty_id1 as int] != owner || m.spec_owners()[kitty_id2 as int]
        != owner {
        Some(Error::KittyNotOwner)
    } else if m.spec_count() == u32::MAX {
        Some(Error::KittiesCountOverflow)
    } else {
        None
    }
}

/// The genome of the kitty that `owner` breeds from `kitty_id1` and
/// `kitty_id2` in `m`, under the given seed and ordinal.
pub open spec fn bred_dna(
    m: Module,
    owner: u64,
    kitty_id1: u32,
    kitty_id2: u32,
    seed: Seq<u8>,
    ordinal: Option<u32>,
) -> Seq<u8> {
    crossed(
        m.spec_genomes()[kitty_id1 as int],
        m.spec_genomes()[kitty_id2 as int],
        derived_dna(owner, seed, ordinal),
    )
}

/// `post` is `pre` with `amount` reserved from `to` and the same amount
/// released, as far as it is reserved, to `from`; every other account as it
/// was.
pub open spec fn stake_handed_over<T: Trait>(pre: T, post: T, from: u64, to: u64, amount: u64) -> bool {
    let moved: nat = if pre.reserved_balance(from) >= amount {
        amount as nat
    } else {
        pre.reserved_balance(from)
    };
    &&& post.free_balance(to) == pre.free_balance(to) - amount
    &&& post.reserved_balance(to) == pre.reserved_balance(to) + amount
    &&& post.reserved_balance(from) == pre.reserved_balance(from) - moved
    &&& post.free_balance(from) == saturated_free(pre.free_balance(from), moved)
    &&& forall|a: u64| a != from && a != to ==> #[trigger] post.free_balance(a) == pre.free_balance(a)
    &&& forall|a: u64|
        a != from && a != to ==> #[trigger] post.reserved_balance(a) == pre.reserved_balance(a)
}

/// The kitties, their owners and their lineage, with the events reported so
/// far and the stake that each kitty holds.
pub struct Module {
    kitties: Vec<Kitty>,
    kitties_count: u32,
    kitty_owners: Vec<u64>,
    owned_kitties: HashMap<u128, u32>,
    kitty_parents: Vec<Option<(u32, u32)>>,
    kitty_children: HashMap<u64, u32>,
    kitty_partners: HashMap<u64, u32>,
    events: Vec<Event>,
    kitty_reserve: u64,
}

impl Module {
    /// The number of kitties, which is also the next index.
    pub closed spec fn spec_count(&self) -> nat {
        self.kitties_count as nat
    }

    /// The genome of each kitty, by index.
    pub closed spec fn spec_genomes(&self) -> Seq<Seq<u8>> {
        self.kitties@.map_values(|k: Kitty| k.0@)
    }

    /// The owner of each kitty, by index.
    pub closed spec fn spec_owners(&self) -> Seq<u64> {
        self.kitty_owners@
    }

    /// The owned-set index: (account, index) to index.
    pub closed spec fn spec_owned(&self) -> Map<(u64, u32), u32> {
        account_index_view(self.owned_kitties@)
    }

    /// The parents of each kitty, by index; none for a kitty created directly.
    pub closed spec fn spec_parents(&self) -> Seq<Option<(u32, u32)>> {
        self.kitty_parents@
    }

    /// The children index: (parent, child) to child.
    pub closed spec fn spec_children(&self) -> Map<(u32, u32), u32> {
        index_pair_view(self.kitty_children@)
    }

    /// The partners index: (parent, other parent) to other parent.
    pub closed spec fn spec_partners(&self) -> Map<(u32, u32), u32> {
        index_pair_view(self.kitty_partners@)
    }

    /// The events reported so far, oldest first.
    pub closed spec fn spec_events(&self) -> Seq<Event> {
        self.events@
    }

    /// The stake reserved for each kitty.
    pub closed spec fn spec_reserve(&self) -> u64 {
        self.kitty_reserve
    }

    /// The indices agree with each other: every kitty has one owner and sits
    /// in that owner's set alone; parents came before their children; and
    /// the children and partners indices hold exactly what the parentage
    /// records.
    pub closed spec fn wf(&self) -> bool {
        &&& self.kitties@.len() == self.kitties_count as nat
        &&& self.kitty_owners@.len() == self.kitties_count as nat
        &&& self.kitty_parents@.len() == self.kitties_count as nat
        &&& forall|a: u64, i: u32|
            #[trigger] self.spec_owned().contains_key((a, i)) == (i < self.kitties_count
                && self.kitty_owners@[i as int] == a)
        &&& forall|a: u64, i: u32|
            #[trigger] self.spec_owned().contains_key((a, i)) ==> self.spec_owned()[(a, i)] == i
        &&& forall|c: int|
            0 <= c < self.kitties_count ==> match #[trigger] self.kitty_parents@[c] {
                Some((a, b)) => a < c && b < c && a != b,
                None => true,
            }
        &&& forall|p: u32, c: u32|
            #[trigger] self.spec_children().contains_key((p, c)) == (c < self.kitties_count
                && has_parent(self.kitty_parents@[c as int], p))
        &&& forall|p: u32, c: u32|
            #[trigger] self.spec_children().contains_key((p, c)) ==> self.spec_children()[(p, c)]
                == c
        &&& forall|a: u32, b: u32|
            #[trigger] self.spec_partners().contains_key((a, b)) == have_mated(
                self.kitty_parents@,
                a,
                b,
            )
        &&& forall|a: u32, b: u32|
            #[trigger] self.spec_partners().contains_key((a, b)) ==> self.spec_partners()[(a, b)]
                == b
    }

    /// Well-formedness does not depend on the events reported.
    proof fn lemma_wf_apart_from_events(a: Module, b: Module)
        requires
            a.wf(),
            b.kitties == a.kitties,
            b.kitties_count == a.kitties_count,
            b.kitty_owners == a.kitty_owners,
            b.owned_kitties == a.owned_kitties,
            b.kitty_parents == a.kitty_parents,
            b.kitty_children == a.kitty_children,
            b.kitty_partners == a.kitty_partners,
        ensures
            b.wf(),
    {
        assert(b.spec_owned() == a.spec_owned());
        assert(b.spec_children() == a.spec_children());
        assert(b.spec_partners() == a.spec_partners());
    }

    /// An empty registry whose kitties each hold `kitty_reserve` in stake.
    pub fn new(kitty_reserve: u64) -> (r: Module)
        ensures
            r.wf(),
            r.spec_count() == 0,
            r.spec_genomes() == Seq::<Seq<u8>>::empty(),
            r.spec_owners() == Seq::<u64>::empty(),
            r.spec_owned() == Map::<(u64, u32), u32>::empty(),
            r.spec_parents() == Seq::<Option<(u32, u32)>>::empty(),
            r.spec_children() == Map::<(u32, u32), u32>::empty(),
            r.spec_partners() == Map::<(u32, u32), u32>::empty(),
            r.spec_events() == Seq::<Event>::empty(),
            r.spec_reserve() == kitty_reserve,
    {
        let r = Module {
            kitties: Vec::new(),
            kitties_count: 0,
            kitty_owners: Vec::new(),
            owned_kitties: HashMap::new(),
            kitty_parents: Vec::new(),
            kitty_children: HashMap::new(),
            kitty_partners: HashMap::new(),
            events: Vec::new(),
            kitty_reserve,
        };
        assert(r.spec_owned() =~= Map::<(u64, u32), u32>::empty());
        assert(r.spec_children() =~= Map::<(u32, u32), u32>::empty());
        assert(r.spec_partners() =~= Map::<(u32, u32), u32>::empty());
        assert(r.spec_genomes() =~= Seq::<Seq<u8>>::empty());
        r
    }

    /// The index the next kitty gets, unless every index is taken.
    pub fn next_kitty_id(&self) -> (r: Result<u32, Error>)
        ensures
            r == if self.spec_count() == u32::MAX as nat {
                Err(Error::KittiesCountOverflow)
            } else {
                Ok(self.spec_count() as u32)
            },
    {
        let kitty_id = self.kitties_count;
        if kitty_id == u32::MAX {
            return Err(Error::KittiesCountOverflow);
        }
        Ok(kitty_id)
    }

    /// The number of kitties.
    pub fn kitties_count(&self) -> (r: u32)
        ensures
            r as nat == self.spec_count(),
    {
        self.kitties_count
    }

    /// The kitty with index `kitty_id`, if there is one.
    pub fn kitties(&self, kitty_id: u32) -> (r: Option<Kitty>)
        requires
            self.wf(),
        ensures
            match r {
                Some(k) => kitty_id < self.spec_count() && k.0@ == self.spec_genomes()[kitty_id as int],
                None => kitty_id >= self.spec_count(),
            },
    {
        if kitty_id < self.kitties_count {
            Some(self.kitties[kitty_id as usize])
        } else {
            None
        }
    }

    /// The owner of kitty `kitty_id`, if it exists.
    pub fn kitty_owner(&self, kitty_id: u32) -> (r: Option<u64>)
        requires
            self.wf(),
        ensures
            r == if kitty_id < self.spec_count() {
                Some(self.spec_owners()[kitty_id as int])
            } else {
                None
            },
    {
        if kitty_id < self.kitties_count {
            Some(self.kitty_owners[kitty_id as usize])
        } else {
            None
        }
    }

    /// The entry of the owned-set index under `who` and `kitty_id`.
    pub fn owned_kitties(&self, who: u64, kitty_id: u32) -> (r: Option<u32>)
        ensures
            r == if self.spec_owned().contains_key((who, kitty_id)) {
                Some(self.spec_owned()[(who, kitty_id)])
            } else {
                None
            },
    {
        match self.owned_kitties.get(&pack_account_index(who, kitty_id)) {
            Some(v) => Some(*v),
            None => None,
        }
    }

    /// The parents of kitty `kitty_id`, if it was bred.
    pub fn kitty_parents(&self, kitty_id: u32) -> (r: Option<(u32, u32)>)
        requires
            self.wf(),
        ensures
            r == if kitty_id < self.spec_count() {
                self.spec_parents()[kitty_id as int]
            } else {
                None
            },
    {
        if kitty_id < self.kitties_count {
            self.kitty_parents[kitty_id as usize]
        } else {
            None
        }
    }

    /// The entry of the children index under `parent` and `child`.
    pub fn kitty_children(&self, parent: u32, child: u32) -> (r: Option<u32>)
        ensures
            r == if self.spec_children().contains_key((parent, child)) {
                Some(self.spec_children()[(parent, child)])
            } else {
                None
            },
    {
        match self.kitty_children.get(&pack_index_pair(parent, child)) {
            Some(v) => Some(*v),
            None => None,
        }
    }

    /// The entry of the partners index under `kitty_id` and `partner`.
    pub fn kitty_partners(&self, kitty_id: u32, partner: u32) -> (r: Option<u32>)
        ensures
            r == if self.spec_partners().contains_key((kitty_id, partner)) {
                Some(self.spec_partners()[(kitty_id, partner)])
            } else {
                None
            },
    {
        match self.kitty_partners.get(&pack_index_pair(kitty_id, partner)) {
            Some(v) => Some(*v),
            None => None,
        }
    }

    /// The events reported so far, oldest first.
    pub fn events(&self) -> (r: &Vec<Event>)
        ensures
            r@ == self.spec_events(),
    {
        &self.events
    }

    /// The stake reserved for each kitty.
    pub fn kitty_reserve(&self) -> (r: u64)
        ensures
            r == self.spec_reserve(),
    {
        self.kitty_reserve
    }

    /// Records a new kitty under the next index, with its owner and, for a
    /// bred kitty, its parents in the parentage, children and partners
    /// indices.
    pub fn insert_kitty(
        &mut self,
        owner: u64,
        kitty_id: u32,
        kitty: Kitty,
        parent: Option<(u32, u32)>,
    )
        requires
            old(self).wf(),
            kitty_id as nat == old(self).spec_count(),
            kitty_id < u32::MAX,
            match parent {
                Some((a, b)) => a < kitty_id && b < kitty_id && a != b,
                None => true,
            },
        ensures
            final(self).wf(),
            kitty_added(*old(self), *final(self), owner, kitty_id, kitty.0@, parent),
            final(self).spec_events() == old(self).spec_events(),
    {
        let ghost pre = *self;
        self.kitties.push(kitty);
        self.kitties_count = kitty_id + 1;
        self.kitty_owners.push(owner);
        let key = pack_account_index(owner, kitty_id);
        self.owned_kitties.insert(key, kitty_id);
        proof {
            lemma_account_index_view_insert(pre.owned_kitties@, owner, kitty_id, kitty_id);
        }
        self.kitty_parents.push(parent);
        match parent {
            Some((parent_id1, parent_id2)) => {
                let ghost children0 = self.kitty_children@;
                self.kitty_children.insert(pack_index_pair(parent_id1, kitty_id), kitty_id);
                let ghost children1 = self.kitty_children@;
                self.kitty_children.insert(pack_index_pair(parent_id2, kitty_id), kitty_id);
                let ghost partners0 = self.kitty_partners@;
                self.kitty_partners.insert(pack_index_pair(parent_id1, parent_id2), parent_id2);
                let ghost partners1 = self.kitty_partners@;
                self.kitty_partners.insert(pack_index_pair(parent_id2, parent_id1), parent_id1);
                proof {
                    lemma_index_pair_view_insert(children0, parent_id1, kitty_id, kitty_id);
                    lemma_index_pair_view_insert(children1, parent_id2, kitty_id, kitty_id);
                    lemma_index_pair_view_insert(partners0, parent_id1, parent_id2, parent_id2);
                    lemma_index_pair_view_insert(partners1, parent_id2, parent_id1, parent_id1);
                }
            },
            None => {},
        }
        proof {
            assert(self.spec_genomes() =~= pre.spec_genomes().push(kitty.0@));
            assert forall|a: u32, b: u32|
                have_mated(self.kitty_parents@, a, b) == (have_mated(pre.kitty_parents@, a, b)
                    || parent == Some((a, b)) || parent == Some((b, a))) by {
                lemma_have_mated_push(pre.kitty_parents@, parent, a, b);
            }
            assert forall|c: int| 0 <= c < pre.kitties_count implies #[trigger] self.kitty_parents@[c]
                == pre.kitty_parents@[c] by {}
            assert(self.kitty_parents@[kitty_id as int] == parent);
            assert forall|a: u64, i: u32|
                #[trigger] self.spec_owned().contains_key((a, i)) == (i < self.kitties_count
                    && self.kitty_owners@[i as int] == a) by {
                if i < kitty_id {
                    assert(self.kitty_owners@[i as int] == pre.kitty_owners@[i as int]);
                    assert(pre.spec_owned().contains_key((a, i)) == (pre.kitty_owners@[i as int]
                        == a));
                } else {
                    assert(!pre.spec_owned().contains_key((a, i)));
                    assert(self.kitty_owners@[kitty_id as int] == owner);
                }
            }
            assert forall|p: u32, c: u32|
                #[trigger] self.spec_children().contains_key((p, c)) == (c < self.kitties_count
                    && has_parent(self.kitty_parents@[c as int], p)) by {
                if c < kitty_id {
                    assert(pre.spec_children().contains_key((p, c)) == has_parent(
                        pre.kitty_parents@[c as int],
                        p,
                    ));
                } else {
                    assert(!pre.spec_children().contains_key((p, c)));
                }
            }
            assert forall|a: u32, b: u32|
                #[trigger] self.spec_partners().contains_key((a, b)) == have_mated(
                    self.kitty_parents@,
                    a,
                    b,
                ) by {
                assert(pre.spec_partners().contains_key((a, b)) == have_mated(
                    pre.kitty_parents@,
                    a,
                    b,
                ));
            }
            assert forall|a: u64, i: u32| #[trigger]
                self.spec_owned().contains_key((a, i)) implies self.spec_owned()[(a, i)] == i by {
                if (a, i) != (owner, kitty_id) {
                    assert(pre.spec_owned().contains_key((a, i)));
                }
            }
            assert forall|p: u32, c: u32| #[trigger]
                self.spec_children().contains_key((p, c)) implies self.spec_children()[(p, c)]
                == c by {
                if c != kitty_id {
                    assert(pre.spec_children().contains_key((p, c)));
                }
            }
            assert forall|a: u32, b: u32| #[trigger]
                self.spec_partners().contains_key((a, b)) implies self.spec_partners()[(a, b)]
                == b by {
                if parent != Some((a, b)) && parent != Some((b, a)) {
                    assert(pre.spec_partners().contains_key((a, b)));
                }
            }
            assert forall|c: int| 0 <= c < self.kitties_count implies match #[trigger] self.kitty_parents@[c] {
                Some((a, b)) => a < c && b < c && a != b,
                None => true,
            } by {
                if c < kitty_id {
                    assert(self.kitty_parents@[c] == pre.kitty_parents@[c]);
                }
            }
        }
    }

    /// Creates a kitty for `sender` with a genome derived from the seed and
    /// the ordinal, after reserving the stake from `sender`.
    pub fn create<T: Trait>(
        &mut self,
        currency: &mut T,
        sender: u64,
        seed: &[u8; 32],
        ordinal: Option<u32>,
    ) -> (r: Result<u32, Error>)
        requires
            old(self).wf(),
        ensures
            final(self).wf(),
            old(self).spec_count() == u32::MAX ==> r == Err::<u32, Error>(
                Error::KittiesCountOverflow,
            ),
            old(self).spec_count() < u32::MAX ==> (r is Ok || r == Err::<u32, Error>(
                Error::MoneyNotEnough,
            )),
            old(self).spec_count() < u32::MAX && old(currency).free_balance(sender) < old(
                self,
            ).spec_reserve() ==> r == Err::<u32, Error>(Error::MoneyNotEnough),
            match r {
                Ok(id) => {
                    &&& kitty_added(
                        *old(self),
                        *final(self),
                        sender,
                        id,
                        derived_dna(sender, seed@, ordinal),
                        None,
                    )
                    &&& final(self).spec_events() == old(self).spec_events().push(
                        Event::Created(sender, id),
                    )
                    &&& stake_reserved(*old(currency), *final(currency), sender, old(self).spec_reserve())
                },
                Err(_) => *final(self) == *old(self) && ledger_unchanged(*old(currency), *final(currency)),
            },
    {
        let kitty_id = match self.next_kitty_id() {
            Ok(id) => id,
            Err(e) => return Err(e),
        };
        let dna = random_dna(sender, seed, ordinal);
        let kitty = Kitty(dna);
        if !currency.reserve(sender, self.kitty_reserve) {
            return Err(Error::MoneyNotEnough);
        }
        self.insert_kitty(sender, kitty_id, kitty, None);
        self.events.push(Event::Created(sender, kitty_id));
        Ok(kitty_id)
    }

    /// Passes kitty `kitty_id` from `sender` to `dest`: `dest` takes on the
    /// stake and `sender`'s is released.
    pub fn transfer<T: Trait>(&mut self, currency: &mut T, sender: u64, dest: u64, kitty_id: u32) -> (r: Result<(), Error>)
        requires
            old(self).wf(),
        ensures
            final(self).wf(),
            match transfer_refusal(*old(self), sender, dest, kitty_id) {
                Some(e) => r == Err::<(), Error>(e),
                None => r is Ok || r == Err::<(), Error>(Error::MoneyNotEnough),
            },
            transfer_refusal(*old(self), sender, dest, kitty_id) is None && old(currency).free_balance(dest)
                < old(self).spec_reserve() ==> r == Err::<(), Error>(Error::MoneyNotEnough),
            match r {
                Ok(_) => {
                    &&& kitty_transferred(*old(self), *final(self), sender, dest, kitty_id)
                    &&& final(self).spec_events() == old(self).spec_events().push(
                        Event::Transferred(sender, dest, kitty_id),
                    )
                    &&& stake_handed_over(*old(currency), *final(currency), sender, dest, old(self).spec_reserve())
                },
                Err(_) => *final(self) == *old(self) && ledger_unchanged(*old(currency), *final(currency)),
            },
    {
        if kitty_id >= self.kitties_count {
            return Err(Error::KittyNotExists);
        }
        let owner = self.kitty_owners[kitty_id as usize];
        if owner != sender {
            return Err(Error::KittyNotOwner);
        }
        if sender == dest {
            return Err(Error::TransferSelf);
        }
        if !currency.reserve(dest, self.kitty_reserve) {
            return Err(Error::MoneyNotEnough);
        }
        let _ = currency.unreserve(sender, self.kitty_reserve);
        let ghost pre = *self;
        self.kitty_owners.set(kitty_id as usize, dest);
        let from_key = pack_account_index(sender, kitty_id);
        self.owned_kitties.remove(&from_key);
        let ghost removed = self.owned_kitties@;
        self.owned_kitties.insert(pack_account_index(dest, kitty_id), kitty_id);
        proof {
            lemma_account_index_view_remove(pre.owned_kitties@, sender, kitty_id);
            lemma_account_index_view_insert(removed, dest, kitty_id, kitty_id);
            assert forall|a: u64, i: u32|
                #[trigger] self.spec_owned().contains_key((a, i)) == (i < self.kitties_count
                    && self.kitty_owners@[i as int] == a) by {
                assert(pre.spec_owned().contains_key((a, i)) == (i < pre.kitties_count
                    && pre.kitty_owners@[i as int] == a));
            }
            assert forall|a: u64, i: u32| #[trigger]
                self.spec_owned().contains_key((a, i)) implies self.spec_owned()[(a, i)] == i by {
                if (a, i) != (dest, kitty_id) {
                    assert(pre.spec_owned().contains_key((a, i)));
                }
            }
        }
        assert(self.spec_children() == pre.spec_children());
        assert(self.spec_partners() == pre.spec_partners());
        assert forall|p: u32, c: u32|
            #[trigger] self.spec_children().contains_key((p, c)) == (c < self.kitties_count
                && has_parent(self.kitty_parents@[c as int], p)) by {
            assert(pre.spec_children().contains_key((p, c)) == (c < pre.kitties_count
                && has_parent(pre.kitty_parents@[c as int], p)));
        }
        let ghost unreported = *self;
        self.events.push(Event::Transferred(sender, dest, kitty_id));
        proof {
            Self::lemma_wf_apart_from_events(unreported, *self);
        }
        Ok(())
    }

    /// Breeds a kitty for `owner` from two distinct kitties of theirs: its
    /// genome crosses theirs under a selector derived from the seed and the
    /// ordinal, and its lineage is recorded.
    fn do_breed<T: Trait>(
        &mut self,
        currency: &mut T,
        owner: u64,
        kitty_id1: u32,
        kitty_id2: u32,
        seed: &[u8; 32],
        ordinal: Option<u32>,
    ) -> (r: Result<u32, Error>)
        requires
            old(self).wf(),
        ensures
            final(self).wf(),
            match breed_refusal(*old(self), owner, kitty_id1, kitty_id2) {
                Some(e) => r == Err::<u32, Error>(e),
                None => r is Ok || r == Err::<u32, Error>(Error::MoneyNotEnough),
            },
            breed_refusal(*old(self), owner, kitty_id1, kitty_id2) is None && old(currency).free_balance(owner)
                < old(self).spec_reserve() ==> r == Err::<u32, Error>(Error::MoneyNotEnough),
            match r {
                Ok(id) => {
                    &&& kitty_added(
                        *old(self),
                        *final(self),
                        owner,
                        id,
                        bred_dna(*old(self), owner, kitty_id1, kitty_id2, seed@, ordinal),
                        Some((kitty_id1, kitty_id2)),
                    )
                    &&& final(self).spec_events() == old(self).spec_events()
                    &&& stake_reserved(*old(currency), *final(currency), owner, old(self).spec_reserve())
                },
                Err(_) => *final(self) == *old(self) && ledger_unchanged(*old(currency), *final(currency)),
            },
    {
        if kitty_id1 == kitty_id2 {
            return Err(Error::RequiredDiffrentParent);
        }
        if kitty_id1 >= self.kitties_count || kitty_id2 >= self.kitties_count {
            return Err(Error::KittyNotExists);
        }
        let owner1 = self.kitty_owners[kitty_id1 as usize];
        let owner2 = self.kitty_owners[kitty_id2 as usize];
        if owner1 != owner || owner2 != owner {
            return Err(Error::KittyNotOwner);
        }
        let kitty_1 = self.kitties[kitty_id1 as usize];
        let kitty_2 = self.kitties[kitty_id2 as usize];
        let kitty_id = match self.next_kitty_id() {
            Ok(id) => id,
            Err(e) => return Err(e),
        };
        let selector = random_dna(owner, seed, ordinal);
        let new_dna = combine_genomes(&kitty_1.0, &kitty_2.0, &selector);
        if !currency.reserve(owner, self.kitty_reserve) {
            return Err(Error::MoneyNotEnough);
        }
        self.insert_kitty(owner, kitty_id, Kitty(new_dna), Some((kitty_id1, kitty_id2)));
        Ok(kitty_id)
    }

    /// Breeds a kitty for `sender` from two distinct kitties of theirs and
    /// reports its creation.
    pub fn breed<T: Trait>(
        &mut self,
        currency: &mut T,
        sender: u64,
        kitty_id1: u32,
        kitty_id2: u32,
        seed: &[u8; 32],
        ordinal: Option<u32>,
    ) -> (r: Result<u32, Error>)
        requires
            old(self).wf(),
        ensures
            final(self).wf(),
            match breed_refusal(*old(self), sender, kitty_id1, kitty_id2) {
                Some(e) => r == Err::<u32, Error>(e),
                None => r is Ok || r == Err::<u32, Error>(Error::MoneyNotEnough),
            },
            breed_refusal(*old(self), sender, kitty_id1, kitty_id2) is None && old(currency).free_balance(sender)
                < old(self).spec_reserve() ==> r == Err::<u32, Error>(Error::MoneyNotEnough),
            match r {
                Ok(id) => {
                    &&& kitty_added(
                        *old(self),
                        *final(self),
                        sender,
                        id,
                        bred_dna(*old(self), sender, kitty_id1, kitty_id2, seed@, ordinal),
                        Some((kitty_id1, kitty_id2)),
                    )
                    &&& final(self).spec_events() == old(self).spec_events().push(
                        Event::Created(sender, id),
                    )
                    &&& stake_reserved(*old(currency), *final(currency), sender, old(self).spec_reserve())
                },
                Err(_) => *final(self) == *old(self) && ledger_unchanged(*old(currency), *final(currency)),
            },
    {
        let new_kitty_id = match self.do_breed(currency, sender, kitty_id1, kitty_id2, seed, ordinal) {
            Ok(id) => id,
            Err(e) => return Err(e),
        };
        self.events.push(Event::Created(sender, new_kitty_id));
        Ok(new_kitty_id)
    }
}

/// `post` follows from `pre` by a successful create that handed out `id`.
pub open spec fn created(pre: Module, post: Module, id: u32) -> bool {
    exists|owner: u64, dna: Seq<u8>| #[trigger] kitty_added(pre, post, owner, id, dna, None)
}

/// Creates number kitties in order from an empty registry: along a run of
/// registries in which each follows from the last by a successful create,
/// the k-th create hands out index k and leaves k + 1 kitties.
pub proof fn lemma_creates_number_in_order(states: Seq<Module>, ids: Seq<u32>)
    requires
        states.len() == ids.len() + 1,
        states[0].spec_count() == 0,
        forall|k: int| 0 <= k < ids.len() ==> #[trigger] created(states[k], states[k + 1], ids[k]),
    ensures
        forall|k: int| 0 <= k < ids.len() ==> #[trigger] ids[k] == k,
        forall|k: int| 0 <= k < states.len() ==> #[trigger] states[k].spec_count() == k,
    decreases ids.len(),
{
    if ids.len() > 0 {
        let n = ids.len() - 1;
        let shorter = states.take(n + 1);
        let fewer = ids.take(n);
        assert forall|k: int| 0 <= k < n implies #[trigger] created(
            shorter[k],
            shorter[k + 1],
            fewer[k],
        ) by {
            assert(created(states[k], states[k + 1], ids[k]));
        }
        lemma_creates_number_in_order(shorter, fewer);
        assert forall|k: int| 0 <= k < n implies #[trigger] ids[k] == k by {
            assert(fewer[k] == ids[k]);
        }
        assert forall|k: int| 0 <= k <= n implies #[trigger] states[k].spec_count() == k by {
            assert(shorter[k] == states[k]);
        }
        assert(created(states[n], states[n + 1], ids[n]));
    }
}

/// A new kitty belongs to the account it was added for, and sits in that
/// account's owned-set.
pub proof fn lemma_added_kitty_owned(
    pre: Module,
    post: Module,
    owner: u64,
    id: u32,
    dna: Seq<u8>,
    parent: Option<(u32, u32)>,
)
    requires
        pre.wf(),
        kitty_added(pre, post, owner, id, dna, parent),
    ensures
        post.spec_owners()[id as int] == owner,
        post.spec_owned().contains_key((owner, id)),
        post.spec_owned()[(owner, id)] == id,
        post.spec_genomes()[id as int] == dna,
{
}

/// After a transfer the kitty belongs to the receiver: it has left the
/// sender's owned-set and joined the receiver's.
pub proof fn lemma_transferred_kitty_owned(pre: Module, post: Module, from: u64, to: u64, id: u32)
    requires
        pre.wf(),
        post.wf(),
        id < pre.spec_count(),
        from != to,
        kitty_transferred(pre, post, from, to, id),
    ensures
        post.spec_owners()[id as int] == to,
        !post.spec_owned().contains_key((from, id)),
        post.spec_owned().contains_key((to, id)),
{
}

/// Breeding a kitty with itself is refused as such, whoever owns it.
pub proof fn lemma_breed_same_parent_refused(m: Module, owner: u64, kitty_id: u32)
    ensures
        breed_refusal(m, owner, kitty_id, kitty_id) == Some(Error::RequiredDiffrentParent),
{
}

/// Each byte of a bred kitty's genome takes the bits of the first parent's
/// byte where the selector's are set, and the second parent's elsewhere.
pub proof fn lemma_bred_genome_bytes(
    pre: Module,
    post: Module,
    owner: u64,
    id: u32,
    kitty_id1: u32,
    kitty_id2: u32,
    seed: Seq<u8>,
    ordinal: Option<u32>,
    i: int,
)
    requires
        pre.wf(),
        kitty_added(
            pre,
            post,
            owner,
            id,
            bred_dna(pre, owner, kitty_id1, kitty_id2, seed, ordinal),
            Some((kitty_id1, kitty_id2)),
        ),
        0 <= i < 16,
    ensures
        post.spec_genomes()[id as int][i] == crate::genome::combined_byte(
            pre.spec_genomes()[kitty_id1 as int][i],
            pre.spec_genomes()[kitty_id2 as int][i],
            derived_dna(owner, seed, ordinal)[i],
        ),
{
    assert(post.spec_genomes()[id as int] == bred_dna(pre, owner, kitty_id1, kitty_id2, seed, ordinal));
}

/// A bred kitty records its parents, is a child of each, and makes the two
/// parents partners of each other.
pub proof fn lemma_bred_lineage(
    pre: Module,
    post: Module,
    owner: u64,
    id: u32,
    dna: Seq<u8>,
    kitty_id1: u32,
    kitty_id2: u32,
)
    requires
        pre.wf(),
        kitty_added(pre, post, owner, id, dna, Some((kitty_id1, kitty_id2))),
    ensures
        post.spec_parents()[id as int] == Some((kitty_id1, kitty_id2)),
        post.spec_children().contains_key((kitty_id1, id)),
        post.spec_children()[(kitty_id1, id)] == id,
        post.spec_children().contains_key((kitty_id2, id)),
        post.spec_children()[(kitty_id2, id)] == id,
        post.spec_partners().contains_key((kitty_id1, kitty_id2)),
        post.spec_partners()[(kitty_id1, kitty_id2)] == kitty_id2,
        post.spec_partners().contains_key((kitty_id2, kitty_id1)),
        post.spec_partners()[(kitty_id2, kitty_id1)] == kitty_id1,
{
}

} // verus!
