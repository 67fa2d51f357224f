//! A store of game entities addressed by identifiers that are never reused.

use vstd::prelude::*;

verus! {

/// The identifier of an entity in an [`Arena`].
pub type Id = u64;

/// The position of the entry with identifier `id` in `entries`, if any.
pub open spec fn index_of<T>(entries: Seq<(Id, T)>, id: Id) -> Option<int> {
    if exists|i: int| 0 <= i < entries.len() && entries[i].0 == id {
        Some(choose|i: int| 0 <= i < entries.len() && entries[i].0 == id)
    } else {
        None
    }
}

/// The value stored under `id` in `entries`, if any.
pub open spec fn lookup<T>(entries: Seq<(Id, T)>, id: Id) -> Option<T> {
    match index_of(entries, id) {
        Some(i) => Some(entries[i].1),
        None => None,
    }
}

/// Identifiers appear in strictly increasing order, so none occurs twice.
pub open spec fn ids_increasing<T>(entries: Seq<(Id, T)>) -> bool {
    forall|i: int, j: int| 0 <= i < j < entries.len() ==> entries[i].0 < entries[j].0
}

/// A collection of entities in insertion order, each under an identifier that
/// the arena hands out once and never again.
pub struct Arena<T> {
    entries: Vec<(Id, T)>,
    next_id: Id,
}

impl<T> View for Arena<T> {
    type V = Seq<(Id, T)>;

    closed spec fn view(&self) -> Seq<(Id, T)> {
        self.entries@
    }
}

/// In a sequence of increasing identifiers, an identifier found at `i` is found nowhere else.
pub proof fn lemma_index_of_unique<T>(entries: Seq<(Id, T)>, i: int)
    requires
        ids_increasing(entries),
        0 <= i < entries.len(),
    ensures
        index_of(entries, entries[i].0) == Some(i),
{
    let id = entries[i].0;
    assert(exists|k: int| 0 <= k < entries.len() && entries[k].0 == id);
    let k = choose|k: int| 0 <= k < entries.len() && entries[k].0 == id;
    if k < i {
        assert(entries[k].0 < entries[i].0);
    } else if k > i {
        assert(entries[i].0 < entries[k].0);
    }
}

impl<T> Arena<T> {
    #[verifier::type_invariant]
    spec fn well_formed(&self) -> bool {
        &&& ids_increasing(self.entries@)
        &&& forall|i: int| 0 <= i < self.entries@.len() ==> self.entries@[i].0 < self.next_id
    }

    /// The identifier that the next insertion hands out.
    pub closed spec fn next_id(&self) -> Id {
        self.next_id
    }

    /// What every arena satisfies: identifiers increase and lie below `next_id`.
    pub open spec fn valid(&self) -> bool {
        &&& ids_increasing(self@)
        &&& forall|i: int| 0 <= i < self@.len() ==> self@[i].0 < self.next_id()
    }

    /// An empty arena.
    pub fn new() -> (a: Self)
        ensures
            a@ == Seq::<(Id, T)>::empty(),
            a.next_id() == 0,
    {
        Arena { entries: Vec::new(), next_id: 0 }
    }

    /// The number of entities.
    pub fn len(&self) -> (n: usize)
        ensures
            n == self@.len(),
            self.valid(),
    {
        proof {
            use_type_invariant(self);
        }
        self.entries.len()
    }

    /// Adds an entity under a fresh identifier and returns that identifier.
    pub fn insert(&mut self, value: T) -> (id: Id)
        requires
            old(self).next_id() < u64::MAX,
        ensures
            id == old(self).next_id(),
            final(self).next_id() == old(self).next_id() + 1,
            final(self)@ == old(self)@.push((id, value)),
            final(self).valid(),
    {
        proof {
            use_type_invariant(&*self);
        }
        let id = self.next_id;
        let mut entries = Vec::new();
        std::mem::swap(&mut entries, &mut self.entries);
        entries.push((id, value));
        *self = Arena { entries, next_id: id + 1 };
        id
    }

    /// The position of `id` among the entries.
    pub fn find(&self, id: Id) -> (r: Option<usize>)
        ensures
            match r {
                Some(i) => index_of(self@, id) == Some(i as int),
                None => index_of(self@, id) is None,
            },
    {
        proof {
            use_type_invariant(self);
        }
        let mut i: usize = 0;
        while i < self.entries.len()
            invariant
                i <= self.entries@.len(),
                ids_increasing(self.entries@),
                forall|k: int| 0 <= k < i ==> self.entries@[k].0 != id,
            decreases self.entries@.len() - i,
        {
            if self.entries[i].0 == id {
                proof {
                    lemma_index_of_unique(self.entries@, i as int);
                }
                return Some(i);
            }
            i = i + 1;
        }
        None
    }

    /// The entity stored under `id`, if any.
    pub fn get(&self, id: Id) -> (r: Option<&T>)
        ensures
            match r {
                Some(v) => lookup(self@, id) == Some(*v),
                None => lookup(self@, id) is None,
            },
    {
        match self.find(id) {
            Some(i) => Some(&self.entries[i].1),
            None => None,
        }
    }

    /// Removes the entity stored under `id` and hands it back; without one, nothing changes.
    pub fn remove(&mut self, id: Id) -> (r: Option<T>)
        ensures
            final(self).next_id() == old(self).next_id(),
            match index_of(old(self)@, id) {
                Some(i) => r == Some(old(self)@[i].1) && final(self)@ == old(self)@.remove(i),
                None => r is None && final(self)@ == old(self)@,
            },
            final(self).valid(),
    {
        proof {
            use_type_invariant(&*self);
        }
        match self.find(id) {
            Some(i) => {
                let next_id = self.next_id;
                let mut entries = Vec::new();
                std::mem::swap(&mut entries, &mut self.entries);
                let ghost before = entries@;
                let (_, value) = entries.remove(i);
                proof {
                    assert forall|a: int, b: int| 0 <= a < b < entries@.len() implies entries@[a].0
                        < entries@[b].0 by {
                        if a < i {
                            if b < i {
                            } else {
                                assert(before[a].0 < before[b + 1].0);
                            }
                        } else {
                            assert(before[a + 1].0 < before[b + 1].0);
                        }
                    }
                    assert forall|k: int| 0 <= k < entries@.len() implies entries@[k].0
                        < next_id by {
                        if k < i {
                        } else {
                            assert(before[k + 1].0 < next_id);
                        }
                    }
                }
                *self = Arena { entries, next_id };
                Some(value)
            },
            None => None,
        }
    }

    /// The identifier and entity at position `i`.
    pub fn entry(&self, i: usize) -> (r: (Id, &T))
        requires
            i < self@.len(),
        ensures
            r.0 == self@[i as int].0,
            *r.1 == self@[i as int].1,
    {
        let e = &self.entries[i];
        (e.0, &e.1)
    }

    /// Replaces the entity at position `i`, keeping its identifier.
    pub fn set(&mut self, i: usize, value: T)
        requires
            i < old(self)@.len(),
        ensures
            final(self).next_id() == old(self).next_id(),
            final(self)@ == old(self)@.update(i as int, (old(self)@[i as int].0, value)),
            final(self).valid(),
    {
        proof {
            use_type_invariant(&*self);
        }
        let next_id = self.next_id;
        let mut entries = Vec::new();
        std::mem::swap(&mut entries, &mut self.entries);
        let id = entries[i].0;
        entries.set(i, (id, value));
        *self = Arena { entries, next_id };
    }
}

} // verus!

verus! {

/// Things that grow older with time and expire.
pub trait Ageing: Sized {
    /// The thing after `dt` more time has passed.
    spec fn aged(self, dt: i64) -> Self;

    /// Whether the thing is gone.
    spec fn expired(self) -> bool;

    fn age(self, dt: i64) -> (r: Self)
        ensures
            r == self.aged(dt),
    ;

    fn is_expired(&self) -> (r: bool)
        ensures
            r == self.expired(),
    ;
}

/// The entries aged by `dt`, in order, without those that expire.
pub open spec fn survivors<T: Ageing>(entries: Seq<(Id, T)>, dt: i64) -> Seq<(Id, T)>
    decreases entries.len(),
{
    if entries.len() == 0 {
        Seq::empty()
    } else {
        let rest = survivors(entries.drop_last(), dt);
        let last = entries.last();
        let aged = last.1.aged(dt);
        if aged.expired() {
            rest
        } else {
            rest.push((last.0, aged))
        }
    }
}

/// Every survivor stems from an entry with the same identifier, aged.
pub proof fn lemma_survivors_from<T: Ageing>(entries: Seq<(Id, T)>, dt: i64)
    ensures
        forall|k: int|
            0 <= k < survivors(entries, dt).len() ==> exists|j: int|
                0 <= j < entries.len() && #[trigger] survivors(entries, dt)[k] == (
                    entries[j].0,
                    entries[j].1.aged(dt),
                ),
        survivors(entries, dt).len() <= entries.len(),
    decreases entries.len(),
{
    if entries.len() > 0 {
        let init = entries.drop_last();
        lemma_survivors_from(init, dt);
        let s = survivors(entries, dt);
        assert forall|k: int| 0 <= k < s.len() implies exists|j: int|
            0 <= j < entries.len() && #[trigger] s[k] == (entries[j].0, entries[j].1.aged(dt)) by {
            if k < survivors(init, dt).len() {
                let j = choose|j: int|
                    0 <= j < init.len() && survivors(init, dt)[k] == (init[j].0, init[j].1.aged(dt));
                assert(entries[j] == init[j]);
            } else {
                assert(s[k] == (entries[entries.len() - 1].0, entries[entries.len() - 1].1.aged(dt)));
            }
        }
    }
}

/// No survivor has expired.
pub proof fn lemma_survivors_alive<T: Ageing>(entries: Seq<(Id, T)>, dt: i64)
    ensures
        forall|k: int|
            0 <= k < survivors(entries, dt).len() ==> !(#[trigger] survivors(entries, dt)[k]).1.expired(),
    decreases entries.len(),
{
    if entries.len() > 0 {
        let init = entries.drop_last();
        lemma_survivors_alive(init, dt);
        let s = survivors(entries, dt);
        let r = survivors(init, dt);
        assert forall|k: int| 0 <= k < s.len() implies !(#[trigger] s[k]).1.expired() by {
            if k < r.len() {
                assert(s[k] == r[k]);
            }
        }
    }
}

/// Surviving identifiers still increase, and come from the original entries.
proof fn lemma_survivors_increasing<T: Ageing>(entries: Seq<(Id, T)>, dt: i64)
    requires
        ids_increasing(entries),
    ensures
        ids_increasing(survivors(entries, dt)),
    decreases entries.len(),
{
    if entries.len() > 0 {
        let init = entries.drop_last();
        lemma_survivors_increasing(init, dt);
        lemma_survivors_from(init, dt);
        let s = survivors(entries, dt);
        let r = survivors(init, dt);
        assert forall|a: int, b: int| 0 <= a < b < s.len() implies s[a].0 < s[b].0 by {
            if b == r.len() {
                let j = choose|j: int| 0 <= j < init.len() && r[a] == (init[j].0, init[j].1.aged(dt));
                assert(entries[j].0 < entries[entries.len() - 1].0);
            }
        }
    }
}

/// An entry that does not expire survives under its identifier, aged.
pub proof fn lemma_survivor_kept<T: Ageing>(entries: Seq<(Id, T)>, dt: i64, i: int)
    requires
        ids_increasing(entries),
        0 <= i < entries.len(),
        !entries[i].1.aged(dt).expired(),
    ensures
        lookup(survivors(entries, dt), entries[i].0) == Some(entries[i].1.aged(dt)),
    decreases entries.len(),
{
    let init = entries.drop_last();
    lemma_survivors_increasing(entries, dt);
    if i == entries.len() - 1 {
        let s = survivors(entries, dt);
        lemma_index_of_unique(s, s.len() - 1);
    } else {
        lemma_survivor_kept(init, dt, i);
        let r = survivors(init, dt);
        let k = index_of(r, entries[i].0)->0;
        lemma_survivors_increasing(init, dt);
        let s = survivors(entries, dt);
        assert(s[k] == r[k]);
        lemma_index_of_unique(s, k);
    }
}

/// An entry that expires is gone: nothing survives under its identifier.
pub proof fn lemma_survivor_dropped<T: Ageing>(entries: Seq<(Id, T)>, dt: i64, i: int)
    requires
        ids_increasing(entries),
        0 <= i < entries.len(),
        entries[i].1.aged(dt).expired(),
    ensures
        lookup(survivors(entries, dt), entries[i].0) is None,
{
    let s = survivors(entries, dt);
    lemma_survivors_from(entries, dt);
    if exists|k: int| 0 <= k < s.len() && s[k].0 == entries[i].0 {
        let k = choose|k: int| 0 <= k < s.len() && s[k].0 == entries[i].0;
        let j = choose|j: int| 0 <= j < entries.len() && s[k] == (entries[j].0, entries[j].1.aged(dt));
        if j < i {
            assert(entries[j].0 < entries[i].0);
        } else if j > i {
            assert(entries[i].0 < entries[j].0);
        }
        lemma_survivors_alive(entries, dt);
        assert(!s[k].1.expired());
    }
}

impl<T: Ageing + Copy> Arena<T> {
    /// Ages every entity by `dt` and drops those that expire; the order is kept.
    pub fn age_all(&mut self, dt: i64)
        ensures
            final(self)@ == survivors(old(self)@, dt),
            final(self).next_id() == old(self).next_id(),
            final(self).valid(),
    {
        proof {
            use_type_invariant(&*self);
        }
        let mut kept: Vec<(Id, T)> = Vec::new();
        let n = self.entries.len();
        let mut i: usize = 0;
        while i < n
            invariant
                n == self.entries@.len(),
                i <= n,
                kept@ == survivors(self.entries@.take(i as int), dt),
            decreases n - i,
        {
            let e = self.entries[i];
            proof {
                assert(self.entries@.take(i + 1).drop_last() =~= self.entries@.take(i as int));
            }
            let aged = e.1.age(dt);
            if !aged.is_expired() {
                kept.push((e.0, aged));
            }
            i = i + 1;
        }
        proof {
            let old_entries = self.entries@;
            assert(old_entries.take(n as int) =~= old_entries);
            lemma_survivors_increasing(old_entries, dt);
            lemma_survivors_from(old_entries, dt);
            assert forall|k: int| 0 <= k < kept@.len() implies kept@[k].0 < self.next_id by {
                let j = choose|j: int|
                    0 <= j < old_entries.len() && kept@[k] == (old_entries[j].0, old_entries[j].1.aged(dt));
            }
        }
        self.entries = kept;
    }
}

} // verus!

verus! {

/// The entries, in order, without those whose identifier is listed in `ids`.
pub open spec fn without<T>(entries: Seq<(Id, T)>, ids: Seq<Id>) -> Seq<(Id, T)>
    decreases entries.len(),
{
    if entries.len() == 0 {
        Seq::empty()
    } else {
        let rest = without(entries.drop_last(), ids);
        if ids.contains(entries.last().0) {
            rest
        } else {
            rest.push(entries.last())
        }
    }
}

/// What is left after removing comes from the entries and keeps their order.
pub proof fn lemma_without_from<T>(entries: Seq<(Id, T)>, ids: Seq<Id>)
    ensures
        forall|k: int|
            0 <= k < without(entries, ids).len() ==> exists|j: int|
                0 <= j < entries.len() && #[trigger] without(entries, ids)[k] == entries[j]
                    && !ids.contains(entries[j].0),
        without(entries, ids).len() <= entries.len(),
    decreases entries.len(),
{
    if entries.len() > 0 {
        let init = entries.drop_last();
        lemma_without_from(init, ids);
        let s = without(entries, ids);
        let r = without(init, ids);
        assert forall|k: int| 0 <= k < s.len() implies exists|j: int|
            0 <= j < entries.len() && #[trigger] s[k] == entries[j] && !ids.contains(entries[j].0) by {
            if k < r.len() {
                let j = choose|j: int| 0 <= j < init.len() && r[k] == init[j] && !ids.contains(init[j].0);
                assert(entries[j] == init[j]);
            } else {
                assert(s[k] == entries[entries.len() - 1]);
            }
        }
    }
}

pub proof fn lemma_without_increasing<T>(entries: Seq<(Id, T)>, ids: Seq<Id>)
    requires
        ids_increasing(entries),
    ensures
        ids_increasing(without(entries, ids)),
    decreases entries.len(),
{
    if entries.len() > 0 {
        let init = entries.drop_last();
        lemma_without_increasing(init, ids);
        lemma_without_from(init, ids);
        let s = without(entries, ids);
        let r = without(init, ids);
        assert forall|a: int, b: int| 0 <= a < b < s.len() implies s[a].0 < s[b].0 by {
            if b == r.len() {
                let j = choose|j: int| 0 <= j < init.len() && r[a] == init[j] && !ids.contains(init[j].0);
                assert(entries[j].0 < entries[entries.len() - 1].0);
            } else {
                assert(s[a] == r[a] && s[b] == r[b]);
            }
        }
    }
}

/// After removing, a listed identifier is gone and any other keeps its value.
pub proof fn lemma_without_lookup<T>(entries: Seq<(Id, T)>, ids: Seq<Id>, id: Id)
    requires
        ids_increasing(entries),
    ensures
        lookup(without(entries, ids), id) == if ids.contains(id) {
            None
        } else {
            lookup(entries, id)
        },
{
    let s = without(entries, ids);
    lemma_without_from(entries, ids);
    lemma_without_increasing(entries, ids);
    if exists|k: int| 0 <= k < s.len() && s[k].0 == id {
        let k = choose|k: int| 0 <= k < s.len() && s[k].0 == id;
        let j = choose|j: int| 0 <= j < entries.len() && s[k] == entries[j] && !ids.contains(entries[j].0);
        lemma_index_of_unique(s, k);
        lemma_index_of_unique(entries, j);
    } else {
        if !ids.contains(id) && exists|j: int| 0 <= j < entries.len() && entries[j].0 == id {
            let j = choose|j: int| 0 <= j < entries.len() && entries[j].0 == id;
            lemma_without_keeps(entries, ids, j);
        }
    }
}

/// An entry whose identifier is not listed stays.
proof fn lemma_without_keeps<T>(entries: Seq<(Id, T)>, ids: Seq<Id>, j: int)
    requires
        0 <= j < entries.len(),
        !ids.contains(entries[j].0),
    ensures
        exists|k: int| 0 <= k < without(entries, ids).len() && #[trigger] without(entries, ids)[k] == entries[j],
    decreases entries.len(),
{
    let init = entries.drop_last();
    let s = without(entries, ids);
    if j == entries.len() - 1 {
        assert(s[s.len() - 1] == entries[j]);
    } else {
        lemma_without_keeps(init, ids, j);
        let k = choose|k: int| 0 <= k < without(init, ids).len() && without(init, ids)[k] == init[j];
        assert(s[k] == without(init, ids)[k]);
    }
}

impl<T: Copy> Arena<T> {
    /// Removes every entity whose identifier is listed; the others keep their order.
    pub fn remove_listed(&mut self, ids: &Vec<Id>)
        ensures
            final(self)@ == without(old(self)@, ids@),
            final(self).next_id() == old(self).next_id(),
            final(self).valid(),
    {
        proof {
            use_type_invariant(&*self);
        }
        let mut kept: Vec<(Id, T)> = Vec::new();
        let n = self.entries.len();
        let mut i: usize = 0;
        while i < n
            invariant
                n == self.entries@.len(),
                i <= n,
                kept@ == without(self.entries@.take(i as int), ids@),
            decreases n - i,
        {
            let e = self.entries[i];
            proof {
                assert(self.entries@.take(i + 1).drop_last() =~= self.entries@.take(i as int));
            }
            let mut listed = false;
            let mut k: usize = 0;
            while k < ids.len()
                invariant
                    k <= ids@.len(),
                    listed == (exists|q: int| 0 <= q < k && ids@[q] == e.0),
                decreases ids@.len() - k,
            {
                if ids[k] == e.0 {
                    listed = true;
                }
                k = k + 1;
            }
            if !listed {
                kept.push(e);
            }
            i = i + 1;
        }
        proof {
            let old_entries = self.entries@;
            assert(old_entries.take(n as int) =~= old_entries);
            lemma_without_increasing(old_entries, ids@);
            lemma_without_from(old_entries, ids@);
            assert forall|k: int| 0 <= k < kept@.len() implies kept@[k].0 < self.next_id by {
                let j = choose|j: int| 0 <= j < old_entries.len() && kept@[k] == old_entries[j] && !ids@.contains(old_entries[j].0);
            }
        }
        self.entries = kept;
    }
}

} // verus!

verus! {

/// What was just inserted is found under the identifier that the insertion handed out,
/// and everything found before is still found.
pub proof fn lemma_insert_lookup<T>(before: Seq<(Id, T)>, next_id: Id, value: T, id: Id)
    requires
        ids_increasing(before),
        forall|i: int| 0 <= i < before.len() ==> before[i].0 < next_id,
    ensures
        lookup(before.push((next_id, value)), id) == if id == next_id {
            Some(value)
        } else {
            lookup(before, id)
        },
{
    let after = before.push((next_id, value));
    assert(ids_increasing(after));
    if id == next_id {
        lemma_index_of_unique(after, after.len() - 1);
    } else if exists|i: int| 0 <= i < before.len() && before[i].0 == id {
        let i = choose|i: int| 0 <= i < before.len() && before[i].0 == id;
        lemma_index_of_unique(before, i);
        lemma_index_of_unique(after, i);
    } else {
        assert(!(exists|i: int| 0 <= i < after.len() && after[i].0 == id)) by {
            if exists|i: int| 0 <= i < after.len() && after[i].0 == id {
                let i = choose|i: int| 0 <= i < after.len() && after[i].0 == id;
                assert(i < before.len());
            }
        }
    }
}

/// After a removal nothing is found under the removed identifier, and everything else
/// is found as before.
pub proof fn lemma_remove_lookup<T>(before: Seq<(Id, T)>, i: int, id: Id)
    requires
        ids_increasing(before),
        0 <= i < before.len(),
    ensures
        lookup(before.remove(i), id) == if id == before[i].0 {
            None
        } else {
            lookup(before, id)
        },
{
    let after = before.remove(i);
    assert(ids_increasing(after)) by {
        assert forall|a: int, b: int| 0 <= a < b < after.len() implies after[a].0 < after[b].0 by {
            if a < i {
                if b >= i {
                    assert(before[a].0 < before[b + 1].0);
                }
            } else {
                assert(before[a + 1].0 < before[b + 1].0);
            }
        }
    }
    if exists|k: int| 0 <= k < after.len() && after[k].0 == id {
        let k = choose|k: int| 0 <= k < after.len() && after[k].0 == id;
        let j = if k < i { k } else { k + 1 };
        assert(after[k] == before[j]);
        lemma_index_of_unique(after, k);
        lemma_index_of_unique(before, j);
        if id == before[i].0 {
            assert(j != i);
            if j < i {
                assert(before[j].0 < before[i].0);
            } else {
                assert(before[i].0 < before[j].0);
            }
        }
    } else {
        if id != before[i].0 && exists|j: int| 0 <= j < before.len() && before[j].0 == id {
            let j = choose|j: int| 0 <= j < before.len() && before[j].0 == id;
            if j < i {
                assert(after[j] == before[j]);
            } else {
                assert(j != i);
                assert(after[j - 1] == before[j]);
            }
        }
    }
}

} // verus!
