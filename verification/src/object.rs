//! The entity: an ordered collection of components with an index by type.

use crate::component::{Component, Stage};
use std::collections::HashMap;
use vstd::prelude::*;

verus! {

/// The type identifiers of the components of `comps`, in order.
pub open spec fn keys_of<C: Component>(comps: Seq<Box<C>>) -> Seq<u64> {
    Seq::new(comps.len(), |i: int| comps[i].type_key())
}

/// The first position from `from` on whose component has a priority
/// strictly above `p`, or the length where there is none.
pub open spec fn first_above<C: Component>(comps: Seq<Box<C>>, p: i32, from: int) -> int
    decreases comps.len() - from,
{
    if from < 0 || from >= comps.len() || comps[from].rank() > p {
        from
    } else {
        first_above(comps, p, from + 1)
    }
}

/// Where a component of priority `p` goes into `comps`: before the first
/// component of a strictly higher priority, and so after every component
/// of the same priority.
pub open spec fn insert_pos<C: Component>(comps: Seq<Box<C>>, p: i32) -> int {
    first_above(comps, p, 0)
}

/// The components are in the order of their priorities.
pub open spec fn sorted<C: Component>(comps: Seq<Box<C>>) -> bool {
    forall|i: int, j: int| 0 <= i < j < comps.len() ==> comps[i].rank() <= comps[j].rank()
}

/// The index knows exactly the types that are present, each with the
/// position of its component.
pub open spec fn indexed<C: Component>(comps: Seq<Box<C>>, index: Map<u64, usize>) -> bool {
    &&& index.dom() =~= keys_of(comps).to_set()
    &&& forall|i: int| 0 <= i < comps.len() ==> #[trigger] index[keys_of(comps)[i]] == i
}

/// Every component is registered with the entity `id` and in use.
pub open spec fn attached<C: Component>(id: u64, comps: Seq<Box<C>>) -> bool {
    forall|i: int|
        0 <= i < comps.len() ==> (#[trigger] comps[i]).owner() == Some(id)
            && comps[i].stage().is_live()
}

/// What holds of an entity between any two calls.
pub open spec fn entity_wf<C: Component>(
    id: u64,
    comps: Seq<Box<C>>,
    index: Map<u64, usize>,
) -> bool {
    &&& sorted(comps)
    &&& indexed(comps, index)
    &&& attached(id, comps)
}

/// An entity: components in the order of their priorities, at most one of
/// each type, found by type through an index.
pub struct Object<C: Component> {
    id: u64,
    components: Vec<Box<C>>,
    comp_type_set: HashMap<u64, usize>,
}

impl<C: Component> Object<C> {
    /// The identifier that components know the entity by.
    pub closed spec fn ident(&self) -> u64 {
        self.id
    }

    /// The components, in order.
    pub closed spec fn comps(&self) -> Seq<Box<C>> {
        self.components@
    }

    /// The index: for each type present, the position of its component.
    pub closed spec fn index(&self) -> Map<u64, usize> {
        self.comp_type_set@
    }

    /// What holds of an entity between any two calls.
    pub open spec fn wf(&self) -> bool {
        entity_wf(self.ident(), self.comps(), self.index())
    }

    /// The index knows the type `ty`. In a well-formed entity that is so
    /// exactly where a component of type `ty` is present.
    pub open spec fn has(&self, ty: u64) -> bool {
        self.index().contains_key(ty)
    }

    /// An entity without components, known by `id`.
    pub fn new(id: u64) -> (r: Object<C>)
        ensures
            r.wf(),
            r.ident() == id,
            r.comps() == Seq::<Box<C>>::empty(),
            r.index() == Map::<u64, usize>::empty(),
    {
        let r = Object { id, components: Vec::new(), comp_type_set: HashMap::new() };
        assert(keys_of(r.comps()).to_set() =~= Set::<u64>::empty());
        r
    }

    /// The identifier that components know the entity by.
    pub fn id(&self) -> (id: u64)
        ensures
            id == self.ident(),
    {
        self.id
    }

    /// Tells whether a component of type `ty` is present.
    pub fn has_comp(&self, ty: u64) -> (r: bool)
        ensures
            r == self.has(ty),
    {
        self.comp_type_set.contains_key(&ty)
    }

    /// The component of type `ty`, if one is present.
    pub fn get_comp(&self, ty: u64) -> (r: Option<&Box<C>>)
        requires
            self.wf(),
        ensures
            match r {
                Some(c) => self.has(ty) && *c == self.comps()[self.index()[ty] as int]
                    && c.type_key() == ty,
                None => !self.has(ty),
            },
    {
        match self.comp_type_set.get(&ty) {
            Some(idx) => {
                proof {
                    lemma_index_in_range(self.comps(), self.index(), ty);
                }
                Some(&self.components[*idx])
            },
            None => None,
        }
    }

    /// The component of type `ty`, if one is present, to change it in
    /// place. The entity stays well-formed as long as the component is
    /// left with its type, its priority, its entity and in use:
    /// `lemma_update_keeps_wf`.
    pub fn get_comp_mut(&mut self, ty: u64) -> (r: Option<&mut Box<C>>)
        requires
            old(self).wf(),
        ensures
            r is Some <==> old(self).has(ty),
            r is None ==> final(self).comps() == old(self).comps(),
            r matches Some(c) ==> *c == old(self).comps()[old(self).index()[ty] as int]
                && final(self).comps() == old(self).comps().update(
                old(self).index()[ty] as int,
                *final(c),
            ),
            final(self).index() == old(self).index(),
            final(self).ident() == old(self).ident(),
    {
        match self.comp_type_set.get(&ty) {
            Some(idx) => {
                let i: usize = *idx;
                proof {
                    lemma_index_in_range(self.comps(), self.index(), ty);
                }
                Some(&mut self.components[i])
            },
            None => None,
        }
    }

    /// Adds `c` where its priority puts it, unless a component of its type
    /// is present already: then nothing changes, whatever `c` is, and `c`
    /// gets no call. A component that is taken in comes unregistered.
    pub fn add_comp(&mut self, c: Box<C>) -> (r: bool)
        requires
            old(self).wf(),
            !old(self).has(c.type_key()) ==> c.stage() == Stage::Unregistered,
        ensures
            final(self).wf(),
            final(self).ident() == old(self).ident(),
            r == !old(self).has(c.type_key()),
            !r ==> final(self).comps() == old(self).comps() && final(self).index() == old(
                self,
            ).index(),
            r ==> added(old(self).comps(), final(self).comps(), *c, old(self).ident()),
            r ==> final(self).index().dom() == old(self).index().dom().insert(c.type_key()),
    {
        self.add_comp_dyn(c)
    }

    /// Adds `c` where its priority puts it, unless a component of its type
    /// is present already: then nothing changes, whatever `c` is, and `c`
    /// gets no call. A component that is taken in comes unregistered. The
    /// type is the one the component itself tells.
    pub fn add_comp_dyn(&mut self, c: Box<C>) -> (r: bool)
        requires
            old(self).wf(),
            !old(self).has(c.type_key()) ==> c.stage() == Stage::Unregistered,
        ensures
            final(self).wf(),
            final(self).ident() == old(self).ident(),
            r == !old(self).has(c.type_key()),
            !r ==> final(self).comps() == old(self).comps() && final(self).index() == old(
                self,
            ).index(),
            r ==> added(old(self).comps(), final(self).comps(), *c, old(self).ident()),
            r ==> final(self).index().dom() == old(self).index().dom().insert(c.type_key()),
    {
        let ty = c.type_id();
        if !self.comp_type_set.contains_key(&ty) {
            return self.add_with_sort(c, ty);
        }
        false
    }

    /// Takes the component of type `ty` out, if one is present, and hands
    /// it over, out of use and unregistered.
    pub fn rm_comp(&mut self, ty: u64) -> (r: Option<Box<C>>)
        requires
            old(self).wf(),
        ensures
            final(self).wf(),
            final(self).ident() == old(self).ident(),
            r is Some <==> old(self).has(ty),
            r is None ==> final(self).comps() == old(self).comps() && final(self).index() == old(
                self,
            ).index(),
            r matches Some(c) ==> {
                let pos = old(self).index()[ty] as int;
                &&& final(self).index().dom() == old(self).index().dom().remove(ty)
                &&& final(self).comps() == old(self).comps().remove(pos)
                &&& c.type_key() == ty
                &&& c.rank() == old(self).comps()[pos].rank()
                &&& c.owner() is None
                &&& c.stage() == Stage::Unregistered
            },
    {
        let found = match self.comp_type_set.get(&ty) {
            Some(idx) => Some(*idx),
            None => None,
        };
        match found {
            None => None,
            Some(idx) => {
                proof {
                    lemma_index_in_range(self.comps(), self.index(), ty);
                }
                let ghost before = self.comps();
                self.comp_type_set.remove(&ty);
                let mut c = self.components.remove(idx);
                proof {
                    lemma_keys_distinct(before, old(self).index());
                    lemma_keys_removed(before, idx as int);
                    assert(indexed(before, old(self).index()));
                    assert(forall|j: int|
                        0 <= j < idx ==> self.comps()[j] == before[j]);
                    assert(forall|j: int|
                        0 <= j < idx ==> #[trigger] self.index()[keys_of(self.comps())[j]] == j) by {
                        assert forall|j: int| 0 <= j < idx implies #[trigger] self.index()[keys_of(
                            self.comps(),
                        )[j]] == j by {
                            assert(keys_of(self.comps())[j] == keys_of(before)[j]);
                            assert(old(self).index()[keys_of(before)[j]] == j);
                        }
                    }
                }
                self.reindex_from(idx);
                c.on_remove();
                c.on_unreg();
                assert(sorted(self.comps()));
                assert(attached(self.ident(), self.comps()));
                Some(c)
            },
        }
    }

    /// Lets every component go: each is taken out of use and unregistered,
    /// and all are handed over in the order they stood in.
    pub fn release(&mut self) -> (r: Vec<Box<C>>)
        requires
            old(self).wf(),
        ensures
            final(self).wf(),
            final(self).ident() == old(self).ident(),
            final(self).comps() == Seq::<Box<C>>::empty(),
            final(self).index() == Map::<u64, usize>::empty(),
            r@.len() == old(self).comps().len(),
            forall|i: int|
                0 <= i < r@.len() ==> {
                    &&& (#[trigger] r@[i]).type_key() == old(self).comps()[i].type_key()
                    &&& r@[i].rank() == old(self).comps()[i].rank()
                    &&& r@[i].owner() is None
                    &&& r@[i].stage() == Stage::Unregistered
                },
    {
        let mut taken: Vec<Box<C>> = Vec::new();
        std::mem::swap(&mut self.components, &mut taken);
        self.comp_type_set.clear();
        assert(keys_of(self.comps()).to_set() =~= Set::<u64>::empty());
        let n = taken.len();
        let mut i: usize = 0;
        while i < n
            invariant
                i <= n,
                n == taken@.len(),
                n == old(self).comps().len(),
                attached(old(self).ident(), old(self).comps()),
                forall|j: int| i <= j < n ==> taken@[j] == old(self).comps()[j],
                forall|j: int|
                    0 <= j < i ==> {
                        &&& (#[trigger] taken@[j]).type_key() == old(self).comps()[j].type_key()
                        &&& taken@[j].rank() == old(self).comps()[j].rank()
                        &&& taken@[j].owner() is None
                        &&& taken@[j].stage() == Stage::Unregistered
                    },
            decreases n - i,
        {
            assert(old(self).comps()[i as int].stage().is_live());
            taken[i].on_remove();
            taken[i].on_unreg();
            i += 1;
        }
        taken
    }

    /// Writes into the index the position of every component from `from`
    /// on.
    fn reindex_from(&mut self, from: usize)
        requires
            from <= old(self).comps().len(),
            keys_of(old(self).comps()).no_duplicates(),
            old(self).index().dom() =~= keys_of(old(self).comps()).to_set(),
            forall|j: int|
                0 <= j < from ==> #[trigger] old(self).index()[keys_of(old(self).comps())[j]] == j,
        ensures
            indexed(final(self).comps(), final(self).index()),
            final(self).comps() == old(self).comps(),
            final(self).ident() == old(self).ident(),
    {
        let n = self.components.len();
        let mut i: usize = from;
        let ghost keys = keys_of(self.comps());
        while i < n
            invariant
                from <= i <= n,
                n == self.comps().len(),
                self.comps() == old(self).comps(),
                self.ident() == old(self).ident(),
                keys == keys_of(self.comps()),
                keys.no_duplicates(),
                self.index().dom() =~= keys.to_set(),
                forall|j: int| 0 <= j < i ==> #[trigger] self.index()[keys[j]] == j,
            decreases n - i,
        {
            let k = self.components[i].type_id();
            assert(k == keys[i as int]);
            assert(keys.contains(k));
            let ghost prev = self.index();
            self.comp_type_set.insert(k, i);
            assert(self.index().dom() =~= prev.dom());
            assert forall|j: int| 0 <= j < i + 1 implies #[trigger] self.index()[keys[j]] == j by {
                if j < i {
                    assert(keys[j] != keys[i as int]);
                    assert(prev[keys[j]] == j);
                }
            }
            i += 1;
        }
    }

    /// Puts `c`, of the type `ty` that is not present, where its priority
    /// puts it.
    fn add_with_sort(&mut self, c: Box<C>, ty: u64) -> (r: bool)
        requires
            old(self).wf(),
            ty == c.type_key(),
            !old(self).has(ty),
            c.stage() == Stage::Unregistered,
        ensures
            r,
            final(self).wf(),
            final(self).ident() == old(self).ident(),
            added(old(self).comps(), final(self).comps(), *c, old(self).ident()),
            final(self).index().dom() == old(self).index().dom().insert(c.type_key()),
    {
        let mut c = c;
        let p = c.priority();
        let n = self.components.len();
        let ghost before = self.comps();
        let mut idx: usize = 0;
        while idx < n
            invariant
                idx <= n,
                n == self.comps().len(),
                self.comps() == before,
                first_above(before, p, 0) == first_above(before, p, idx as int),
                forall|j: int| 0 <= j < idx ==> (#[trigger] before[j]).rank() <= p,
            ensures
                idx <= n,
                idx == first_above(before, p, 0),
                forall|j: int| 0 <= j < idx ==> (#[trigger] before[j]).rank() <= p,
                idx < n ==> before[idx as int].rank() > p,
            decreases n - idx,
        {
            if p < self.components[idx].priority() {
                break ;
            }
            idx += 1;
        }
        c.on_reg(self.id);
        c.on_add();
        let ghost placed = c;
        self.components.insert(idx, c);
        self.comp_type_set.insert(ty, idx);
        let m = self.components.len();
        proof {
            assert(m == n + 1);
            lemma_keys_distinct(before, old(self).index());
            lemma_keys_inserted(before, idx as int, placed);
            assert(indexed(before, old(self).index()));
            assert(!keys_of(before).contains(ty));
            assert forall|j: int| 0 <= j < idx + 1 implies #[trigger] self.index()[keys_of(
                self.comps(),
            )[j]] == j by {
                if j < idx {
                    assert(keys_of(self.comps())[j] == keys_of(before)[j]);
                    assert(keys_of(before).contains(keys_of(before)[j]));
                    assert(old(self).index()[keys_of(before)[j]] == j);
                }
            }
        }
        self.reindex_from(idx + 1);
        proof {
            assert(self.comps() == before.insert(idx as int, placed));
            assert forall|i: int, j: int| 0 <= i < j < self.comps().len() implies self.comps()[i].rank()
                <= self.comps()[j].rank() by {
                if j < idx {
                    assert(before[i].rank() <= before[j].rank());
                } else if j == idx {
                    assert(before[i].rank() <= p);
                } else if i < idx {
                    assert(before[i].rank() <= before[j - 1].rank());
                } else if i == idx {
                    assert(before[idx as int].rank() <= before[j - 1].rank());
                } else {
                    assert(before[i - 1].rank() <= before[j - 1].rank());
                }
            }
            assert forall|i: int| 0 <= i < self.comps().len() implies (#[trigger] self.comps()[i]).owner()
                == Some(self.ident()) && self.comps()[i].stage().is_live() by {
                if i < idx {
                    assert(self.comps()[i] == before[i]);
                } else if i > idx {
                    assert(self.comps()[i] == before[i - 1]);
                }
            }
        }
        true
    }
}

/// `after` is `before` with `c` taken in by the entity `id`: the component
/// stands where its priority puts it, registered with the entity and in
/// use, with the type and priority it came with; the others are as they
/// were, in their order.
pub open spec fn added<C: Component>(
    before: Seq<Box<C>>,
    after: Seq<Box<C>>,
    c: C,
    id: u64,
) -> bool {
    let pos = insert_pos(before, c.rank());
    &&& 0 <= pos <= before.len()
    &&& after.len() == before.len() + 1
    &&& after == before.insert(pos, after[pos])
    &&& after[pos].type_key() == c.type_key()
    &&& after[pos].rank() == c.rank()
    &&& after[pos].owner() == Some(id)
    &&& after[pos].stage() == Stage::Active
}

/// The types after a component went in at `pos`.
proof fn lemma_keys_inserted<C: Component>(comps: Seq<Box<C>>, pos: int, c: Box<C>)
    requires
        0 <= pos <= comps.len(),
        keys_of(comps).no_duplicates(),
        !keys_of(comps).contains(c.type_key()),
    ensures
        keys_of(comps.insert(pos, c)) =~= keys_of(comps).insert(pos, c.type_key()),
        keys_of(comps.insert(pos, c)).no_duplicates(),
        keys_of(comps.insert(pos, c)).to_set() =~= keys_of(comps).to_set().insert(c.type_key()),
{
    let keys = keys_of(comps);
    let after = keys_of(comps.insert(pos, c));
    assert(after =~= keys.insert(pos, c.type_key()));
    assert forall|i: int, j: int| 0 <= i < after.len() && 0 <= j < after.len() && i != j implies after[i]
        != after[j] by {
        let a = if i < pos { i } else { i - 1 };
        let b = if j < pos { j } else { j - 1 };
        if i == pos {
            assert(keys.contains(keys[b]));
        } else if j == pos {
            assert(keys.contains(keys[a]));
        } else {
            assert(keys[a] != keys[b]);
        }
    }
    assert forall|k: u64| after.to_set().contains(k) <==> keys.to_set().insert(
        c.type_key(),
    ).contains(k) by {
        if after.contains(k) {
            let i = choose|i: int| 0 <= i < after.len() && after[i] == k;
            if i < pos {
                assert(keys[i] == k);
            } else if i > pos {
                assert(keys[i - 1] == k);
            }
        }
        if keys.contains(k) {
            let i = choose|i: int| 0 <= i < keys.len() && keys[i] == k;
            if i < pos {
                assert(after[i] == k);
            } else {
                assert(after[i + 1] == k);
            }
        }
        if k == c.type_key() {
            assert(after[pos] == k);
        }
    }
}

/// The types after the component at `pos` went out.
proof fn lemma_keys_removed<C: Component>(comps: Seq<Box<C>>, pos: int)
    requires
        0 <= pos < comps.len(),
        keys_of(comps).no_duplicates(),
    ensures
        keys_of(comps.remove(pos)) =~= keys_of(comps).remove(pos),
        keys_of(comps.remove(pos)).no_duplicates(),
        keys_of(comps.remove(pos)).to_set() =~= keys_of(comps).to_set().remove(
            keys_of(comps)[pos],
        ),
{
    let keys = keys_of(comps);
    let after = keys_of(comps.remove(pos));
    assert(after =~= keys.remove(pos));
    assert forall|k: u64| after.to_set().contains(k) <==> keys.to_set().remove(keys[pos]).contains(
        k,
    ) by {
        if after.contains(k) {
            let i = choose|i: int| 0 <= i < after.len() && after[i] == k;
            if i < pos {
                assert(keys[i] == k);
            } else {
                assert(keys[i + 1] == k);
            }
        }
        if keys.contains(k) && k != keys[pos] {
            let i = choose|i: int| 0 <= i < keys.len() && keys[i] == k;
            if i < pos {
                assert(after[i] == k);
            } else {
                assert(after[i - 1] == k);
            }
        }
    }
}

/// The index resolves the type of each component to the position where
/// the component stands.
pub proof fn lemma_index_resolves<C: Component>(
    comps: Seq<Box<C>>,
    index: Map<u64, usize>,
    i: int,
)
    requires
        indexed(comps, index),
        0 <= i < comps.len(),
    ensures
        index.contains_key(comps[i].type_key()),
        index[comps[i].type_key()] == i,
{
    let keys = keys_of(comps);
    assert(keys[i] == comps[i].type_key());
    assert(keys.contains(keys[i]));
    assert(index[keys[i]] == i);
}

/// The components of a well-formed entity have distinct types.
pub proof fn lemma_keys_distinct<C: Component>(comps: Seq<Box<C>>, index: Map<u64, usize>)
    requires
        indexed(comps, index),
    ensures
        keys_of(comps).no_duplicates(),
{
    let keys = keys_of(comps);
    assert forall|i: int, j: int| 0 <= i < keys.len() && 0 <= j < keys.len() && i != j implies keys[i]
        != keys[j] by {
        assert(index[keys[i]] == i);
        assert(index[keys[j]] == j);
    }
}

/// A component changed in place leaves the entity well-formed if it keeps
/// its type and its priority, and is still registered with the entity and
/// in use.
pub proof fn lemma_update_keeps_wf<C: Component>(
    id: u64,
    comps: Seq<Box<C>>,
    index: Map<u64, usize>,
    pos: int,
    c: Box<C>,
)
    requires
        entity_wf(id, comps, index),
        0 <= pos < comps.len(),
        c.type_key() == comps[pos].type_key(),
        c.rank() == comps[pos].rank(),
        c.owner() == Some(id),
        c.stage().is_live(),
    ensures
        entity_wf(id, comps.update(pos, c), index),
{
    let after = comps.update(pos, c);
    assert(keys_of(after) =~= keys_of(comps));
    assert forall|i: int, j: int| 0 <= i < j < after.len() implies after[i].rank()
        <= after[j].rank() by {
        assert(comps[i].rank() <= comps[j].rank());
    }
    assert forall|i: int| 0 <= i < after.len() implies (#[trigger] after[i]).owner() == Some(id)
        && after[i].stage().is_live() by {
        if i != pos {
            assert(after[i] == comps[i]);
        }
    }
}

/// A type that the index knows is the type of the component at the
/// position the index gives.
pub proof fn lemma_index_in_range<C: Component>(
    comps: Seq<Box<C>>,
    index: Map<u64, usize>,
    ty: u64,
)
    requires
        indexed(comps, index),
        index.contains_key(ty),
    ensures
        0 <= index[ty] < comps.len(),
        comps[index[ty] as int].type_key() == ty,
{
    let keys = keys_of(comps);
    assert(keys.to_set().contains(ty));
    assert(keys.contains(ty));
    let i = choose|i: int| 0 <= i < keys.len() && keys[i] == ty;
    assert(index[keys[i]] == i);
}

/// The entities of a scene. Each is known by its position in the arena:
/// that is the identifier its components hold, and the arena finds the
/// entity for it.
pub struct ObjectArena<C: Component> {
    objects: Vec<Object<C>>,
}

impl<C: Component> ObjectArena<C> {
    /// The entities, each at the position that is its identifier.
    pub closed spec fn entities(&self) -> Seq<Object<C>> {
        self.objects@
    }

    /// What holds of an arena between any two calls: every entity is
    /// well-formed and known by its position, so no two share an
    /// identifier.
    pub open spec fn wf(&self) -> bool {
        forall|i: int|
            0 <= i < self.entities().len() ==> (#[trigger] self.entities()[i]).wf()
                && self.entities()[i].ident() == i
    }

    /// An arena without entities.
    pub fn new() -> (r: ObjectArena<C>)
        ensures
            r.wf(),
            r.entities() == Seq::<Object<C>>::empty(),
    {
        ObjectArena { objects: Vec::new() }
    }

    /// The number of entities.
    pub fn len(&self) -> (r: usize)
        ensures
            r == self.entities().len(),
    {
        self.objects.len()
    }

    /// Makes an entity without components and gives its identifier.
    pub fn create(&mut self) -> (id: u64)
        requires
            old(self).wf(),
        ensures
            final(self).wf(),
            id == old(self).entities().len(),
            final(self).entities().len() == old(self).entities().len() + 1,
            final(self).entities().drop_last() == old(self).entities(),
            final(self).entities().last().ident() == id,
            final(self).entities().last().comps() == Seq::<Box<C>>::empty(),
            final(self).entities().last().index() == Map::<u64, usize>::empty(),
    {
        let id = self.objects.len() as u64;
        self.objects.push(Object::new(id));
        assert(self.entities().drop_last() =~= old(self).entities());
        id
    }

    /// The entity known by `id`, if there is one.
    pub fn get(&self, id: u64) -> (r: Option<&Object<C>>)
        ensures
            r is Some <==> id < self.entities().len(),
            r matches Some(o) ==> *o == self.entities()[id as int],
    {
        if id < self.objects.len() as u64 {
            Some(&self.objects[id as usize])
        } else {
            None
        }
    }

    /// The entity known by `id`, if there is one, to change it in place.
    /// The arena stays well-formed as long as the entity does.
    pub fn get_mut(&mut self, id: u64) -> (r: Option<&mut Object<C>>)
        ensures
            r is Some <==> id < old(self).entities().len(),
            r is None ==> final(self).entities() == old(self).entities(),
            r matches Some(o) ==> *o == old(self).entities()[id as int]
                && final(self).entities() == old(self).entities().update(id as int, *final(o)),
    {
        if id < self.objects.len() as u64 {
            Some(&mut self.objects[id as usize])
        } else {
            None
        }
    }

    /// The entity that `c` is registered with, if it is registered with
    /// one of this arena.
    pub fn owner_of(&self, c: &C) -> (r: Option<&Object<C>>)
        ensures
            match r {
                Some(o) => c.owner() matches Some(id) && id < self.entities().len() && *o
                    == self.entities()[id as int],
                None => c.owner() matches Some(id) ==> id >= self.entities().len(),
            },
    {
        match c.object() {
            Ok(id) => self.get(id),
            Err(_) => None,
        }
    }
}

/// The identifier that a component of an entity of the arena holds is that
/// of the entity that holds it: through the arena the component finds its
/// entity, and in it itself.
pub proof fn lemma_component_finds_its_entity<C: Component>(
    arena: ObjectArena<C>,
    entity: int,
    position: int,
)
    requires
        arena.wf(),
        0 <= entity < arena.entities().len(),
        0 <= position < arena.entities()[entity].comps().len(),
    ensures
        ({
            let holder = arena.entities()[entity];
            let c = holder.comps()[position];
            &&& c.owner() == Some(entity as u64)
            &&& holder.has(c.type_key())
            &&& holder.index()[c.type_key()] == position
        }),
{
    let holder = arena.entities()[entity];
    assert(holder.wf());
    lemma_index_resolves(holder.comps(), holder.index(), position);
}

} // verus!
