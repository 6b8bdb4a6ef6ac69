//! The per-contract-instance namespace and its per-entity rating maps.
//!
//! Entity names address slots. A slot normally holds a per-entity rating
//! map — caller fingerprint to the most recent rating byte — created
//! lazily on the entity's first rating and never re-created. A slot may
//! instead hold one shared rating written through the separately named
//! shared-slot operation; the two kinds never mix under one name, and a
//! call that meets the other kind aborts with no state change.

use vstd::prelude::*;

use crate::alist::alist_map;
use crate::alist::distinct_keys;
use crate::alist::lemma_alist_absent;
use crate::alist::lemma_alist_at;
use crate::alist::lemma_alist_push;
use crate::alist::lemma_alist_update;

verus! {

/// A named slot of the contract-instance namespace.
pub enum Slot {
    /// A per-entity rating map: caller fingerprint to most recent rating.
    Entries(Vec<(Vec<u8>, u8)>),
    /// One shared rating; whoever wrote last wins, regardless of caller.
    Shared(u8),
}

/// The mathematical reading of one slot.
pub enum SlotModel {
    /// A per-caller rating map.
    Ratings(Map<Seq<u8>, u8>),
    /// One shared scalar rating.
    Scalar(u8),
}

/// The mathematical reading of a whole store: entity name to slot.
pub type StoreModel = Map<Seq<u8>, SlotModel>;

/// Why an invocation was aborted with no state change.
#[derive(Clone, Copy, Debug, PartialEq, Eq, Structural)]
pub enum StoreError {
    /// The entity name is already bound to a slot of the other kind.
    NamespaceTypeMismatch,
}

/// The abstract entries of one per-entity rating map.
pub open spec fn entries_model(es: Seq<(Vec<u8>, u8)>) -> Seq<(Seq<u8>, u8)> {
    es.map_values(|p: (Vec<u8>, u8)| (p.0@, p.1))
}

/// The reading of one slot.
pub open spec fn slot_model(s: Slot) -> SlotModel {
    match s {
        Slot::Entries(es) => SlotModel::Ratings(alist_map(entries_model(es@))),
        Slot::Shared(v) => SlotModel::Scalar(v),
    }
}

/// The abstract namespace denoted by a slot vector.
pub open spec fn slots_model(s: Seq<(Vec<u8>, Slot)>) -> Seq<(Seq<u8>, SlotModel)> {
    s.map_values(|p: (Vec<u8>, Slot)| (p.0@, slot_model(p.1)))
}

/// Whether one slot keeps at most one rating per caller.
pub open spec fn slot_wf(s: Slot) -> bool {
    match s {
        Slot::Entries(es) => distinct_keys(entries_model(es@)),
        Slot::Shared(_) => true,
    }
}

/// The per-caller ratings recorded under `name`: empty where the name is
/// unbound or bound to a shared slot.
pub open spec fn ratings_at(m: StoreModel, name: Seq<u8>) -> Map<Seq<u8>, u8> {
    if m.contains_key(name) {
        match m[name] {
            SlotModel::Ratings(rm) => rm,
            SlotModel::Scalar(_) => Map::empty(),
        }
    } else {
        Map::empty()
    }
}

/// Whether a per-caller rating for `name` must abort: the name is already
/// bound to a shared slot.
pub open spec fn blocks_rating(m: StoreModel, name: Seq<u8>) -> bool {
    m.contains_key(name) && m[name] is Scalar
}

/// Whether a shared rating for `name` must abort: the name is already
/// bound to a per-caller map.
pub open spec fn blocks_shared_rating(m: StoreModel, name: Seq<u8>) -> bool {
    m.contains_key(name) && m[name] is Ratings
}

/// The namespace after one successful rating by `caller` for `name`.
pub open spec fn rated(m: StoreModel, name: Seq<u8>, caller: Seq<u8>, rating: u8) -> StoreModel {
    m.insert(name, SlotModel::Ratings(ratings_at(m, name).insert(caller, rating)))
}

/// The rating stored for `(name, caller)`, if any.
pub open spec fn rating_of(m: StoreModel, name: Seq<u8>, caller: Seq<u8>) -> Option<u8> {
    if m.contains_key(name) && m[name] is Ratings && ratings_at(m, name).contains_key(caller) {
        Some(ratings_at(m, name)[caller])
    } else {
        None
    }
}

/// The shared rating stored for `name`, if any.
pub open spec fn shared_rating_of(m: StoreModel, name: Seq<u8>) -> Option<u8> {
    if m.contains_key(name) && m[name] is Scalar {
        Some(m[name]->Scalar_0)
    } else {
        None
    }
}

/// Whether two byte keys are the same.
fn key_eq(a: &Vec<u8>, b: &Vec<u8>) -> (r: bool)
    ensures
        r == (a@ == b@),
{
    if a.len() != b.len() {
        return false;
    }
    let mut i: usize = 0;
    while i < a.len()
        invariant
            a@.len() == b@.len(),
            i <= a@.len(),
            forall|j: int| 0 <= j < i ==> a@[j] == b@[j],
        decreases a@.len() - i,
    {
        if a[i] != b[i] {
            return false;
        }
        i += 1;
    }
    proof {
        assert(a@ =~= b@);
    }
    true
}

/// A fresh copy of a byte key.
fn copy_key(a: &Vec<u8>) -> (r: Vec<u8>)
    ensures
        r@ == a@,
{
    let mut r: Vec<u8> = Vec::new();
    let mut i: usize = 0;
    while i < a.len()
        invariant
            i <= a@.len(),
            r@ == a@.subrange(0, i as int),
        decreases a@.len() - i,
    {
        r.push(a[i]);
        proof {
            assert(r@ =~= a@.subrange(0, i + 1));
        }
        i += 1;
    }
    proof {
        assert(a@.subrange(0, a@.len() as int) =~= a@);
    }
    r
}

/// The index of the entry keyed by `key`, if one exists.
fn find_key<V>(entries: &Vec<(Vec<u8>, V)>, key: &Vec<u8>) -> (r: Option<usize>)
    ensures
        match r {
            Some(i) => i < entries@.len() && entries@[i as int].0@ == key@,
            None => forall|j: int| 0 <= j < entries@.len() ==> entries@[j].0@ != key@,
        },
{
    let mut i: usize = 0;
    while i < entries.len()
        invariant
            i <= entries@.len(),
            forall|j: int| 0 <= j < i ==> entries@[j].0@ != key@,
        decreases entries@.len() - i,
    {
        let p = &entries[i];
        if key_eq(&p.0, key) {
            return Some(i);
        }
        i += 1;
    }
    None
}

/// The per-contract-instance namespace: entity names bound to slots.
pub struct RatingStore {
    slots: Vec<(Vec<u8>, Slot)>,
}

impl View for RatingStore {
    type V = StoreModel;

    closed spec fn view(&self) -> StoreModel {
        alist_map(slots_model(self.slots@))
    }
}

impl RatingStore {
    /// The representation invariant: entity names are distinct, and each
    /// per-entity map keeps at most one rating per caller.
    pub closed spec fn wf(self) -> bool {
        &&& distinct_keys(slots_model(self.slots@))
        &&& forall|i: int| 0 <= i < self.slots@.len() ==> #[trigger] slot_wf(self.slots@[i].1)
    }

    /// Whether handle `i` addresses the per-entity map bound to `name`.
    pub closed spec fn handle_for(self, i: int, name: Seq<u8>) -> bool {
        &&& 0 <= i < self.slots@.len()
        &&& self.slots@[i].0@ == name
        &&& self.slots@[i].1 is Entries
    }

    /// An empty namespace: no entity has been rated yet.
    pub fn new() -> (s: Self)
        ensures
            s.wf(),
            s@ == Map::<Seq<u8>, SlotModel>::empty(),
    {
        let s = RatingStore { slots: Vec::new() };
        proof {
            assert(slots_model(s.slots@) =~= Seq::<(Seq<u8>, SlotModel)>::empty());
        }
        s
    }

    /// Look `name` up in the namespace; if it is unbound, create an empty
    /// per-entity map and bind it, as one atomic step. The returned handle
    /// addresses the entity's map. Aborts with `NamespaceTypeMismatch`,
    /// changing nothing, exactly where the name is bound to a shared slot.
    pub fn resolve_or_create(&mut self, name: &Vec<u8>) -> (r: Result<usize, StoreError>)
        requires
            old(self).wf(),
            name@.len() > 0,
        ensures
            final(self).wf(),
            (r is Err) <==> blocks_rating(old(self)@, name@),
            match r {
                Ok(i) => {
                    &&& final(self)@ == (if old(self)@.contains_key(name@) {
                        old(self)@
                    } else {
                        old(self)@.insert(name@, SlotModel::Ratings(Map::empty()))
                    })
                    &&& final(self).handle_for(i as int, name@)
                },
                Err(e) => {
                    &&& *final(self) == *old(self)
                    &&& e == StoreError::NamespaceTypeMismatch
                },
            },
    {
        let ghost a0 = slots_model(self.slots@);
        match find_key(&self.slots, name) {
            Some(i) => {
                proof {
                    lemma_alist_at(a0, i as int);
                }
                let p = &self.slots[i];
                match &p.1 {
                    Slot::Entries(_) => Ok(i),
                    Slot::Shared(_) => Err(StoreError::NamespaceTypeMismatch),
                }
            },
            None => {
                proof {
                    lemma_alist_absent(a0, name@);
                }
                let ck = copy_key(name);
                let i = self.slots.len();
                self.slots.push((ck, Slot::Entries(Vec::new())));
                proof {
                    assert(entries_model(Seq::<(Vec<u8>, u8)>::empty())
                        =~= Seq::<(Seq<u8>, u8)>::empty());
                    assert(slots_model(self.slots@)
                        =~= a0.push((name@, SlotModel::Ratings(Map::empty()))));
                    lemma_alist_push(a0, name@, SlotModel::Ratings(Map::empty()));
                }
                Ok(i)
            },
        }
    }

    /// Write `rating` under `caller` into the per-entity map addressed by
    /// handle `i`, replacing any previous value for that caller.
    fn put_rating_at(&mut self, i: usize, caller: &Vec<u8>, rating: u8)
        requires
            old(self).wf(),
            i < old(self).slots@.len(),
            old(self).slots@[i as int].1 is Entries,
        ensures
            final(self).wf(),
            final(self)@ == rated(old(self)@, old(self).slots@[i as int].0@, caller@, rating),
    {
        let ghost s0 = self.slots@;
        let ghost a0 = slots_model(s0);
        let ghost nm = s0[i as int].0@;
        proof {
            lemma_alist_at(a0, i as int);
            assert(slot_wf(s0[i as int].1));
        }
        let (name_key, slot) = self.slots.remove(i);
        let mut es = match slot {
            Slot::Entries(es) => es,
            Slot::Shared(_) => vstd::pervasive::unreached(),
        };
        let ghost es0 = es@;
        let ghost e0 = entries_model(es0);
        match find_key(&es, caller) {
            Some(j) => {
                let (ck, _) = es.remove(j);
                es.insert(j, (ck, rating));
                proof {
                    assert(es@ =~= es0.update(j as int, (es0[j as int].0, rating)));
                    lemma_alist_update(e0, j as int, rating);
                    assert(entries_model(es@) =~= e0.update(j as int, (caller@, rating)));
                }
            },
            None => {
                let ck = copy_key(caller);
                es.push((ck, rating));
                proof {
                    lemma_alist_absent(e0, caller@);
                    lemma_alist_push(e0, caller@, rating);
                    assert(entries_model(es@) =~= e0.push((caller@, rating)));
                }
            },
        }
        proof {
            assert(alist_map(entries_model(es@)) == alist_map(e0).insert(caller@, rating));
            assert(distinct_keys(entries_model(es@)));
        }
        self.slots.insert(i, (name_key, Slot::Entries(es)));
        proof {
            let sm = SlotModel::Ratings(alist_map(e0).insert(caller@, rating));
            assert(self.slots@ =~= s0.update(i as int, (s0[i as int].0, Slot::Entries(es))));
            assert(slots_model(self.slots@) =~= a0.update(i as int, (nm, sm)));
            lemma_alist_update(a0, i as int, sm);
            assert(ratings_at(alist_map(a0), nm) == alist_map(e0));
            assert forall|x: int| 0 <= x < self.slots@.len() implies #[trigger] slot_wf(
                self.slots@[x].1,
            ) by {
                if x != i {
                    assert(self.slots@[x] == s0[x]);
                    assert(slot_wf(s0[x].1));
                }
            }
        }
    }

    /// Record `rating` for `name` by `caller`: resolve or create the
    /// entity's per-caller map, then write the rating under the caller's
    /// key, unconditionally replacing any prior value (last write wins).
    /// Aborts with `NamespaceTypeMismatch`, changing nothing, exactly
    /// where the name is bound to a shared slot.
    pub fn rate(&mut self, name: &Vec<u8>, caller: &Vec<u8>, rating: u8) -> (r: Result<
        (),
        StoreError,
    >)
        requires
            old(self).wf(),
            name@.len() > 0,
        ensures
            final(self).wf(),
            (r is Err) <==> blocks_rating(old(self)@, name@),
            r is Ok ==> final(self)@ == rated(old(self)@, name@, caller@, rating),
            r is Err ==> *final(self) == *old(self) && r == Err::<(), StoreError>(
                StoreError::NamespaceTypeMismatch,
            ),
    {
        let ghost m0 = self@;
        let i = match self.resolve_or_create(name) {
            Ok(i) => i,
            Err(e) => {
                return Err(e);
            },
        };
        let ghost m1 = self@;
        self.put_rating_at(i, caller, rating);
        proof {
            assert(ratings_at(m1, name@) =~= ratings_at(m0, name@));
            assert(rated(m1, name@, caller@, rating) =~= rated(m0, name@, caller@, rating));
        }
        Ok(())
    }

    /// Record `rating` for `name` by the account whose raw hash bytes are
    /// `account`: the caller key is the account's lower-hex fingerprint,
    /// exactly as the identity resolver derives it.
    pub fn rate_by_account(&mut self, name: &Vec<u8>, account: &Vec<u8>, rating: u8) -> (r: Result<
        (),
        StoreError,
    >)
        requires
            old(self).wf(),
            name@.len() > 0,
        ensures
            final(self).wf(),
            (r is Err) <==> blocks_rating(old(self)@, name@),
            r is Ok ==> final(self)@ == rated(
                old(self)@,
                name@,
                crate::identity::hex_lower_of(account@),
                rating,
            ),
            r is Err ==> *final(self) == *old(self) && r == Err::<(), StoreError>(
                StoreError::NamespaceTypeMismatch,
            ),
    {
        let caller = crate::identity::caller_key(account);
        self.rate(name, &caller, rating)
    }

    /// Record `rating` for `name` in the entity's single shared slot:
    /// whoever calls last wins, regardless of caller. Binds the slot on
    /// first use; aborts with `NamespaceTypeMismatch`, changing nothing,
    /// exactly where the name is bound to a per-caller map.
    pub fn rate_shared(&mut self, name: &Vec<u8>, rating: u8) -> (r: Result<(), StoreError>)
        requires
            old(self).wf(),
            name@.len() > 0,
        ensures
            final(self).wf(),
            (r is Err) <==> blocks_shared_rating(old(self)@, name@),
            r is Ok ==> final(self)@ == old(self)@.insert(name@, SlotModel::Scalar(rating)),
            r is Err ==> *final(self) == *old(self) && r == Err::<(), StoreError>(
                StoreError::NamespaceTypeMismatch,
            ),
    {
        let ghost s0 = self.slots@;
        let ghost a0 = slots_model(s0);
        match find_key(&self.slots, name) {
            Some(i) => {
                proof {
                    lemma_alist_at(a0, i as int);
                }
                let p = &self.slots[i];
                match &p.1 {
                    Slot::Entries(_) => Err(StoreError::NamespaceTypeMismatch),
                    Slot::Shared(_) => {
                        let (name_key, _) = self.slots.remove(i);
                        self.slots.insert(i, (name_key, Slot::Shared(rating)));
                        proof {
                            let sm = SlotModel::Scalar(rating);
                            assert(self.slots@ =~= s0.update(
                                i as int,
                                (s0[i as int].0, Slot::Shared(rating)),
                            ));
                            assert(slots_model(self.slots@) =~= a0.update(
                                i as int,
                                (name@, sm),
                            ));
                            lemma_alist_update(a0, i as int, sm);
                            assert forall|x: int|
                                0 <= x < self.slots@.len() implies #[trigger] slot_wf(
                                self.slots@[x].1,
                            ) by {
                                if x != i {
                                    assert(self.slots@[x] == s0[x]);
                                    assert(slot_wf(s0[x].1));
                                }
                            }
                        }
                        Ok(())
                    },
                }
            },
            None => {
                proof {
                    lemma_alist_absent(a0, name@);
                }
                let ck = copy_key(name);
                self.slots.push((ck, Slot::Shared(rating)));
                proof {
                    assert(slots_model(self.slots@) =~= a0.push(
                        (name@, SlotModel::Scalar(rating)),
                    ));
                    lemma_alist_push(a0, name@, SlotModel::Scalar(rating));
                }
                Ok(())
            },
        }
    }

    /// The rating stored for `(name, caller)`, if any.
    pub fn get_rating(&self, name: &Vec<u8>, caller: &Vec<u8>) -> (r: Option<u8>)
        requires
            self.wf(),
        ensures
            r == rating_of(self@, name@, caller@),
    {
        let ghost a0 = slots_model(self.slots@);
        match find_key(&self.slots, name) {
            Some(i) => {
                proof {
                    lemma_alist_at(a0, i as int);
                }
                let p = &self.slots[i];
                match &p.1 {
                    Slot::Entries(es) => {
                        proof {
                            assert(slot_wf(self.slots@[i as int].1));
                        }
                        match find_key(es, caller) {
                            Some(j) => {
                                proof {
                                    lemma_alist_at(entries_model(es@), j as int);
                                }
                                let e = &es[j];
                                Some(e.1)
                            },
                            None => {
                                proof {
                                    lemma_alist_absent(entries_model(es@), caller@);
                                }
                                None
                            },
                        }
                    },
                    Slot::Shared(_) => None,
                }
            },
            None => {
                proof {
                    lemma_alist_absent(a0, name@);
                }
                None
            },
        }
    }

    /// The shared rating stored for `name`, if the name is bound to a
    /// shared slot.
    pub fn get_shared_rating(&self, name: &Vec<u8>) -> (r: Option<u8>)
        requires
            self.wf(),
        ensures
            r == shared_rating_of(self@, name@),
    {
        let ghost a0 = slots_model(self.slots@);
        match find_key(&self.slots, name) {
            Some(i) => {
                proof {
                    lemma_alist_at(a0, i as int);
                }
                let p = &self.slots[i];
                match &p.1 {
                    Slot::Entries(_) => None,
                    Slot::Shared(v) => Some(*v),
                }
            },
            None => {
                proof {
                    lemma_alist_absent(a0, name@);
                }
                None
            },
        }
    }
}

} // verus!
