//! The store of contact records, one per pair of colliders.
use crate::constraints::RigidBody;
use crate::contacts::Contacts;
use vstd::prelude::*;

verus! {

/// No two records are of the same pair of colliders, in either order.
pub open spec fn unique_pairs(s: Seq<Contacts>) -> bool {
    forall|i: int, j: int|
        0 <= i < s.len() && 0 <= j < s.len() && i != j ==> !(#[trigger] s[i]).is_pair(
            (#[trigger] s[j]).entity1,
            s[j].entity2,
        )
}

/// The store holds a record of the pair `a`, `b`.
pub open spec fn has_pair(s: Seq<Contacts>, a: u64, b: u64) -> bool {
    exists|i: int| 0 <= i < s.len() && (#[trigger] s[i]).is_pair(a, b)
}

/// The record of the pair `a`, `b`, if the store holds one.
pub open spec fn find_pair(s: Seq<Contacts>, a: u64, b: u64) -> Option<Contacts> {
    if has_pair(s, a, b) {
        Some(s[choose|i: int| 0 <= i < s.len() && (#[trigger] s[i]).is_pair(a, b)])
    } else {
        None
    }
}

/// `s` with `c` stored: in place of the record of the same pair if there is
/// one, else after all others.
pub open spec fn inserted(s: Seq<Contacts>, c: Contacts) -> Seq<Contacts> {
    if has_pair(s, c.entity1, c.entity2) {
        s.update(
            choose|i: int| 0 <= i < s.len() && (#[trigger] s[i]).is_pair(c.entity1, c.entity2),
            c,
        )
    } else {
        s.push(c)
    }
}

pub open spec fn is_current(c: Contacts) -> bool {
    c.during_current_frame
}

/// The records of `s` in contact during this frame, in order.
pub open spec fn current_records(s: Seq<Contacts>) -> Seq<Contacts> {
    s.filter(|c: Contacts| is_current(c))
}

/// The contact records of all pairs of colliders seen in contact, in the
/// order in which they were first inserted.
pub struct Collisions {
    entries: Vec<Contacts>,
}

impl View for Collisions {
    type V = Seq<Contacts>;

    closed spec fn view(&self) -> Seq<Contacts> {
        self.entries@
    }
}

fn vacant_record() -> (r: Contacts) {
    Contacts {
        entity1: 0,
        entity2: 0,
        body_entity1: None,
        body_entity2: None,
        manifolds: Vec::new(),
        during_current_frame: false,
        during_previous_frame: false,
        is_sensor: false,
        total_normal_impulse: 0,
        total_tangent_impulse: 0,
    }
}

impl Collisions {
    pub open spec fn wf(&self) -> bool {
        &&& unique_pairs(self@)
        &&& forall|i: int| 0 <= i < self@.len() ==> (#[trigger] self@[i]).wf()
    }

    /// An empty store.
    pub fn new() -> (r: Collisions)
        ensures
            r@ == Seq::<Contacts>::empty(),
            r.wf(),
    {
        Collisions { entries: Vec::new() }
    }

    pub fn len(&self) -> (r: usize)
        ensures
            r == self@.len(),
    {
        self.entries.len()
    }

    /// The record at position `i`.
    pub fn entry(&self, i: usize) -> (r: &Contacts)
        requires
            i < self@.len(),
        ensures
            *r == self@[i as int],
    {
        &self.entries[i]
    }

    fn find_index(&self, a: u64, b: u64) -> (r: Option<usize>)
        requires
            unique_pairs(self@),
        ensures
            match r {
                Some(i) => i < self@.len() && self@[i as int].is_pair(a, b) && find_pair(self@, a, b)
                    == Some(self@[i as int]),
                None => !has_pair(self@, a, b) && find_pair(self@, a, b) == None::<Contacts>,
            },
    {
        let mut i: usize = 0;
        while i < self.entries.len()
            invariant
                i <= self@.len(),
                self@ == self.entries@,
                unique_pairs(self@),
                forall|k: int| 0 <= k < i ==> !(#[trigger] self@[k]).is_pair(a, b),
            decreases self@.len() - i,
        {
            let c = &self.entries[i];
            if (c.entity1 == a && c.entity2 == b) || (c.entity1 == b && c.entity2 == a) {
                proof {
                    let s = self@;
                    assert(s[i as int].is_pair(a, b));
                    assert(has_pair(s, a, b));
                    let j = choose|j: int| 0 <= j < s.len() && (#[trigger] s[j]).is_pair(a, b);
                    assert(unique_pairs(s));
                    if j != i as int {
                        assert(!s[j].is_pair(s[i as int].entity1, s[i as int].entity2));
                    }
                }
                return Some(i);
            }
            i += 1;
        }
        None
    }

    /// The record of the colliders `a` and `b`, stored in either order.
    pub fn get(&self, a: u64, b: u64) -> (r: Option<&Contacts>)
        requires
            self.wf(),
        ensures
            match r {
                Some(c) => find_pair(self@, a, b) == Some(*c),
                None => find_pair(self@, a, b) == None::<Contacts>,
            },
            r.is_some() == has_pair(self@, a, b),
            r is Some ==> r.unwrap().wf(),
    {
        match self.find_index(a, b) {
            Some(i) => Some(&self.entries[i]),
            None => None,
        }
    }

    /// Stores `contacts`, in place of the record of the same pair if there is
    /// one (which is returned), else after all others.
    pub fn insert_collision_pair(&mut self, contacts: Contacts) -> (r: Option<Contacts>)
        requires
            old(self).wf(),
            contacts.wf(),
        ensures
            final(self).wf(),
            final(self)@ == inserted(old(self)@, contacts),
            r == find_pair(old(self)@, contacts.entity1, contacts.entity2),
            has_pair(old(self)@, contacts.entity1, contacts.entity2) ==> exists|i: int|
                0 <= i < old(self)@.len() && (#[trigger] old(self)@[i]).is_pair(
                    contacts.entity1,
                    contacts.entity2,
                ) && final(self)@ == old(self)@.update(i, contacts),
            !has_pair(old(self)@, contacts.entity1, contacts.entity2) ==> final(self)@ == old(
                self,
            )@.push(contacts),
    {
        let a = contacts.entity1;
        let b = contacts.entity2;
        match self.find_index(a, b) {
            Some(i) => {
                let ghost s = self@;
                let mut c = contacts;
                self.entries.set_and_swap(i, &mut c);
                proof {
                    assert(self@ == s.update(i as int, contacts));
                    let j = choose|j: int|
                        0 <= j < s.len() && (#[trigger] s[j]).is_pair(a, b);
                    if j != i as int {
                        assert(!s[j].is_pair(s[i as int].entity1, s[i as int].entity2));
                    }
                    assert forall|x: int, y: int|
                        0 <= x < self@.len() && 0 <= y < self@.len() && x != y implies !(
                        #[trigger] self@[x]).is_pair((#[trigger] self@[y]).entity1, self@[y].entity2) by {
                        if x == i {
                            assert(!s[y].is_pair(s[x].entity1, s[x].entity2));
                        } else if y == i {
                            assert(!s[x].is_pair(s[y].entity1, s[y].entity2));
                        }
                    }
                }
                Some(c)
            },
            None => {
                let ghost s = self@;
                self.entries.push(contacts);
                proof {
                    assert(self@ == s.push(contacts));
                    assert forall|x: int, y: int|
                        0 <= x < self@.len() && 0 <= y < self@.len() && x != y implies !(
                        #[trigger] self@[x]).is_pair((#[trigger] self@[y]).entity1, self@[y].entity2) by {
                        if x == s.len() {
                            assert(!s[y].is_pair(a, b));
                        } else if y == s.len() {
                            assert(!s[x].is_pair(a, b));
                        }
                    }
                }
                None
            },
        }
    }

    /// Removes every record whose colliders were not found in contact during
    /// this frame.
    pub fn retain_current(&mut self)
        requires
            old(self).wf(),
        ensures
            final(self).wf(),
            final(self)@ == current_records(old(self)@),
            forall|i: int| 0 <= i < final(self)@.len() ==> (#[trigger] final(self)@[i]).during_current_frame,
    {
        let ghost s = self@;
        let mut kept: Vec<Contacts> = Vec::new();
        let mut old_entries: Vec<Contacts> = Vec::new();
        std::mem::swap(&mut old_entries, &mut self.entries);
        assert(old_entries@ == s);
        let mut k: usize = 0;
        while k < old_entries.len()
            invariant
                old_entries@.len() == s.len(),
                forall|i: int| k <= i < s.len() ==> old_entries@[i] == s[i],
                unique_pairs(s),
                forall|i: int| 0 <= i < s.len() ==> (#[trigger] s[i]).wf(),
                k <= s.len(),
                kept@ == s.take(k as int).filter(|c: Contacts| is_current(c)),
                forall|i: int| 0 <= i < kept@.len() ==> exists|j: int| 0 <= j < k && s[j] == #[trigger] kept@[i],
                unique_pairs(kept@),
            decreases s.len() - k,
        {
            let ghost before = kept@;
            proof {
                assert(s.take(k as int + 1) =~= s.take(k as int).push(s[k as int]));
                s.take(k as int).lemma_filter_push(s[k as int], |c: Contacts| is_current(c));
            }
            if old_entries[k].during_current_frame {
                let mut c = vacant_record();
                old_entries.set_and_swap(k, &mut c);
                kept.push(c);
                proof {
                    assert forall|x: int, y: int|
                        0 <= x < kept@.len() && 0 <= y < kept@.len() && x != y implies !(
                        #[trigger] kept@[x]).is_pair((#[trigger] kept@[y]).entity1, kept@[y].entity2) by {
                        if x == before.len() {
                            let j = choose|j: int| 0 <= j < k && s[j] == #[trigger] before[y];
                            assert(!s[k as int].is_pair(s[j].entity1, s[j].entity2));
                        } else if y == before.len() {
                            let j = choose|j: int| 0 <= j < k && s[j] == #[trigger] before[x];
                            assert(!s[j].is_pair(s[k as int].entity1, s[k as int].entity2));
                        }
                    }
                    assert forall|i: int| 0 <= i < kept@.len() implies exists|j: int| 0 <= j < k + 1 && s[j] == #[trigger] kept@[i] by {
                        if i == before.len() {
                            assert(s[k as int] == kept@[i]);
                        }
                    }
                }
            }
            k += 1;
        }
        proof {
            assert(s.take(s.len() as int) =~= s);
            broadcast use vstd::seq_lib::group_filter_ensures;
            assert(kept@ == s.filter(|c: Contacts| is_current(c)));
        }
        self.entries = kept;
    }
}

/// What the lifecycle sweep reads of an entity.
#[derive(Clone, Copy, Debug, PartialEq, Eq, Structural)]
pub struct EntityActivity {
    pub entity: u64,
    /// The entity's rigid body, if it has one.
    pub rigid_body: Option<RigidBody>,
    pub is_sleeping: bool,
}

/// The first activity of `s` for entity `e`.
#[verifier::opaque]
pub open spec fn activity_index(s: Seq<EntityActivity>, e: u64) -> Option<int> {
    if exists|i: int|
        0 <= i < s.len() && (#[trigger] s[i]).entity == e && forall|k: int|
            0 <= k < i ==> (#[trigger] s[k]).entity != e {
        Some(
            choose|i: int|
                0 <= i < s.len() && (#[trigger] s[i]).entity == e && forall|k: int|
                    0 <= k < i ==> (#[trigger] s[k]).entity != e,
        )
    } else {
        None
    }
}

/// Neither static nor sleeping.
pub open spec fn is_active(a: EntityActivity) -> bool {
    a.rigid_body != Some(RigidBody::Static) && !a.is_sleeping
}

/// A record at the start of a frame: its totals are zero; it must be
/// detected again to stay unless neither side is active (each side is its
/// rigid body where the record names one, else its collider); it is dropped
/// where the two sides cannot both be found.
pub open spec fn reset_record(c: Contacts, entities: Seq<EntityActivity>) -> Contacts {
    let i1 = activity_index(entities, side_entity(c.body_entity1, c.entity1));
    let i2 = activity_index(entities, side_entity(c.body_entity2, c.entity2));
    if i1 is Some && i2 is Some {
        let active = is_active(entities[i1.unwrap()]) || is_active(entities[i2.unwrap()]);
        Contacts {
            total_normal_impulse: 0,
            total_tangent_impulse: 0,
            during_previous_frame: true,
            during_current_frame: !active,
            ..c
        }
    } else {
        Contacts { total_normal_impulse: 0, total_tangent_impulse: 0, during_current_frame: false, ..c }
    }
}

/// The entity whose activity decides for one side of a record: its rigid
/// body where it has one, else the collider itself.
pub open spec fn side_entity(body: Option<u64>, collider: u64) -> u64 {
    match body {
        Some(b) => b,
        None => collider,
    }
}

fn find_activity(entities: &Vec<EntityActivity>, e: u64) -> (r: Option<usize>)
    ensures
        match r {
            Some(i) => i < entities@.len() && activity_index(entities@, e) == Some(i as int),
            None => activity_index(entities@, e) == None::<int>,
        },
{
    let ghost s = entities@;
    let mut i: usize = 0;
    while i < entities.len()
        invariant
            i <= s.len(),
            s == entities@,
            forall|k: int| 0 <= k < i ==> (#[trigger] s[k]).entity != e,
        decreases s.len() - i,
    {
        if entities[i].entity == e {
            proof {
                reveal(activity_index);
                assert(0 <= i < s.len() && s[i as int].entity == e && forall|k: int|
                    0 <= k < i ==> (#[trigger] s[k]).entity != e);
                let j = choose|j: int|
                    0 <= j < s.len() && (#[trigger] s[j]).entity == e && forall|k: int|
                        0 <= k < j ==> (#[trigger] s[k]).entity != e;
                if j < i {
                    assert(s[j].entity != e);
                } else if j > i {
                    assert(s[i as int].entity != e);
                }
            }
            return Some(i);
        }
        i += 1;
    }
    proof {
        reveal(activity_index);
    }
    None
}

fn reset_one(c: &mut Contacts, entities: &Vec<EntityActivity>)
    ensures
        *final(c) == reset_record(*old(c), entities@),
{
    c.total_normal_impulse = 0;
    c.total_tangent_impulse = 0;
    let e1 = match c.body_entity1 {
        Some(b) => b,
        None => c.entity1,
    };
    let e2 = match c.body_entity2 {
        Some(b) => b,
        None => c.entity2,
    };
    let found = match (find_activity(entities, e1), find_activity(entities, e2)) {
        (Some(i1), Some(i2)) => Some((i1, i2)),
        _ => None,
    };
    match found {
        Some((i1, i2)) => {
            let a1 = &entities[i1];
            let a2 = &entities[i2];
            let active1 = !matches!(a1.rigid_body, Some(RigidBody::Static)) && !a1.is_sleeping;
            let active2 = !matches!(a2.rigid_body, Some(RigidBody::Static)) && !a2.is_sleeping;
            c.during_previous_frame = true;
            c.during_current_frame = !(active1 || active2);
        },
        None => {
            c.during_current_frame = false;
        },
    }
}

/// Resets every record for a new frame (see `reset_record`): impulse totals
/// start from zero, and a record stays in contact without being detected
/// again only where both sides (each side's rigid body where it has one,
/// else its collider) are found and neither is active.
pub fn reset_collision_states(collisions: &mut Collisions, entities: &Vec<EntityActivity>)
    requires
        old(collisions).wf(),
    ensures
        final(collisions).wf(),
        final(collisions)@.len() == old(collisions)@.len(),
        forall|i: int|
            0 <= i < old(collisions)@.len() ==> #[trigger] final(collisions)@[i] == reset_record(
                old(collisions)@[i],
                entities@,
            ),
{
    let ghost s = collisions@;
    let mut i: usize = 0;
    while i < collisions.entries.len()
        invariant
            i <= s.len(),
            collisions.entries@.len() == s.len(),
            unique_pairs(s),
            forall|k: int| 0 <= k < s.len() ==> (#[trigger] s[k]).wf(),
            forall|k: int| 0 <= k < i ==> collisions.entries@[k] == reset_record(s[k], entities@),
            forall|k: int| i <= k < s.len() ==> collisions.entries@[k] == s[k],
        decreases s.len() - i,
    {
        let mut c = vacant_record();
        collisions.entries.set_and_swap(i, &mut c);
        reset_one(&mut c, entities);
        collisions.entries.set_and_swap(i, &mut c);
        i += 1;
    }
    proof {
        let t = collisions@;
        assert forall|x: int, y: int|
            0 <= x < t.len() && 0 <= y < t.len() && x != y implies !(#[trigger] t[x]).is_pair(
            (#[trigger] t[y]).entity1,
            t[y].entity2,
        ) by {
            assert(!s[x].is_pair(s[y].entity1, s[y].entity2));
        }
        assert forall|x: int| 0 <= x < t.len() implies (#[trigger] t[x]).wf() by {
            assert(s[x].wf());
        }
    }
}

/// Removes every record whose colliders were not found in contact during
/// this frame.
pub fn remove_ended_collisions(collisions: &mut Collisions)
    requires
        old(collisions).wf(),
    ensures
        final(collisions).wf(),
        final(collisions)@ == current_records(old(collisions)@),
        forall|i: int|
            0 <= i < final(collisions)@.len() ==> (#[trigger] final(collisions)@[i]).during_current_frame,
{
    collisions.retain_current();
}

/// After the prune, every stored record was in contact during this frame.
pub proof fn lemma_pruned_store_is_current(s: Seq<Contacts>)
    ensures
        forall|i: int|
            0 <= i < current_records(s).len() ==> (#[trigger] current_records(s)[i]).during_current_frame,
{
    broadcast use vstd::seq_lib::group_filter_ensures;
}

/// A record of two entities that are both found and both static or sleeping
/// stays in contact through the reset without being detected again, and so
/// survives the prune.
pub proof fn lemma_resting_pair_persists(c: Contacts, entities: Seq<EntityActivity>, s: Seq<Contacts>)
    requires
        activity_index(entities, side_entity(c.body_entity1, c.entity1)) is Some,
        activity_index(entities, side_entity(c.body_entity2, c.entity2)) is Some,
        !is_active(entities[activity_index(entities, side_entity(c.body_entity1, c.entity1)).unwrap()]),
        !is_active(entities[activity_index(entities, side_entity(c.body_entity2, c.entity2)).unwrap()]),
        s.contains(reset_record(c, entities)),
    ensures
        reset_record(c, entities).during_current_frame,
        reset_record(c, entities).during_previous_frame,
        current_records(s).contains(reset_record(c, entities)),
{
    let r = reset_record(c, entities);
    let k = choose|k: int| 0 <= k < s.len() && s[k] == r;
    broadcast use vstd::seq_lib::group_filter_ensures;
    assert(is_current(s[k]));
}

/// The store holds a current record of the pair `a`, `b`.
pub open spec fn has_current(s: Seq<Contacts>, a: u64, b: u64) -> bool {
    exists|j: int| 0 <= j < s.len() && (#[trigger] s[j]).is_pair(a, b) && s[j].during_current_frame
}

/// Storing a current record keeps every pair that had a current record, and
/// gives its own pair one.
pub proof fn lemma_inserted_keeps_current(s: Seq<Contacts>, c: Contacts, a: u64, b: u64)
    requires
        c.during_current_frame,
    ensures
        has_current(s, a, b) ==> has_current(inserted(s, c), a, b),
        has_current(inserted(s, c), c.entity1, c.entity2),
{
    let t = inserted(s, c);
    if has_pair(s, c.entity1, c.entity2) {
        let m = choose|i: int| 0 <= i < s.len() && (#[trigger] s[i]).is_pair(c.entity1, c.entity2);
        assert(t[m] == c);
        assert(t[m].is_pair(c.entity1, c.entity2));
        if has_current(s, a, b) {
            let j = choose|j: int|
                0 <= j < s.len() && (#[trigger] s[j]).is_pair(a, b) && s[j].during_current_frame;
            if j == m {
                assert(t[m].is_pair(a, b));
            } else {
                assert(t[j] == s[j]);
            }
        }
    } else {
        assert(t[s.len() as int] == c);
        assert(t[s.len() as int].is_pair(c.entity1, c.entity2));
        if has_current(s, a, b) {
            let j = choose|j: int|
                0 <= j < s.len() && (#[trigger] s[j]).is_pair(a, b) && s[j].during_current_frame;
            assert(t[j] == s[j]);
        }
    }
}

/// A pair with a current record keeps it through the prune.
pub proof fn lemma_current_survives_prune(s: Seq<Contacts>, a: u64, b: u64)
    requires
        has_current(s, a, b),
    ensures
        has_current(current_records(s), a, b),
{
    broadcast use vstd::seq_lib::group_filter_ensures;

    let j = choose|j: int|
        0 <= j < s.len() && (#[trigger] s[j]).is_pair(a, b) && s[j].during_current_frame;
    let f = current_records(s);
    assert(is_current(s[j]));
    assert(f.contains(s[j]));
    let k = choose|k: int| 0 <= k < f.len() && f[k] == s[j];
    assert(f[k].is_pair(a, b) && f[k].during_current_frame);
}

} // verus!
