//! The bookkeeping of the scene world: which entities exist, their lifecycle,
//! hierarchy, visibility channels, streaming residency and process claims,
//! the set of entities under process control, and the log of mutations that
//! the runtime drains each frame.
//!
//! Positions, bounds and the other spatial state of an entity are kept by the
//! renderer beside this record; the ledger decides what changed and records it.

use vstd::prelude::*;
use std::collections::{BTreeMap, BTreeSet};
use crate::scene::{
    normalize_process_label, ProcessLabelError, SceneDirtyFlags, SceneMutationSource, SceneProcessClaims,
    VisibilityMask, sorted_names, DIRTY_EMPTY, DIRTY_HIERARCHY, DIRTY_LIFECYCLE, DIRTY_PROCESS_CONTROL,
    DIRTY_RESIDENCY, DIRTY_VISIBILITY,
};
use crate::strmap::StrMap;
use vstd::std_specs::iter::IteratorSpec;

verus! {

broadcast use {vstd::std_specs::btree::group_btree_axioms, vstd::laws_cmp::group_laws_cmp};

/// Where an entity is in its life.
#[derive(Clone, Copy, Debug, PartialEq, Eq, Structural)]
pub enum SceneLifecycle {
    Constructed,
    Added,
    Active,
    Dormant,
    PendingRemove,
    Removed,
}

/// Whether the asset of an entity is loaded.
#[derive(Clone, Copy, Debug, PartialEq, Eq, Structural)]
pub enum SceneResidency {
    Unloaded,
    Requested,
    Resident,
}

/// Whether an entity stays where the scene placed it or may move.
#[derive(Clone, Copy, Debug, PartialEq, Eq, Structural)]
pub enum SceneMobility {
    Static,
    Dynamic,
}

/// The bookkeeping of one scene entity.
pub struct SceneEntityRecord {
    pub id: u64,
    pub name: String,
    pub lifecycle: SceneLifecycle,
    pub parent: Option<u64>,
    pub children: Vec<u64>,
    pub visibility: VisibilityMask,
    pub asset_ref: Option<String>,
    pub render_slot: Option<usize>,
    pub residency: SceneResidency,
    pub mobility: SceneMobility,
    pub revision: u64,
    pub last_mutation_frame: u64,
    pub process_claims: SceneProcessClaims,
    pub last_process_frame: Option<u64>,
}

/// An entity record as plain values.
#[verifier::ext_equal]
pub struct EntityView {
    pub id: u64,
    pub name: Seq<char>,
    pub lifecycle: SceneLifecycle,
    pub parent: Option<u64>,
    pub children: Seq<u64>,
    pub hidden: Set<Seq<char>>,
    pub asset: Option<Seq<char>>,
    pub render_slot: Option<usize>,
    pub residency: SceneResidency,
    pub mobility: SceneMobility,
    pub revision: u64,
    pub last_mutation_frame: u64,
    pub claims: Map<Seq<char>, Set<Seq<char>>>,
    pub last_process_frame: Option<u64>,
}

impl View for SceneEntityRecord {
    type V = EntityView;

    open spec fn view(&self) -> EntityView {
        EntityView {
            id: self.id,
            name: self.name@,
            lifecycle: self.lifecycle,
            parent: self.parent,
            children: self.children@,
            hidden: self.visibility.hidden(),
            asset: match self.asset_ref {
                Some(a) => Some(a@),
                None => None,
            },
            render_slot: self.render_slot,
            residency: self.residency,
            mobility: self.mobility,
            revision: self.revision,
            last_mutation_frame: self.last_mutation_frame,
            claims: self.process_claims.model(),
            last_process_frame: self.last_process_frame,
        }
    }
}

impl SceneEntityRecord {
    /// Drawn this frame: it has a render slot, is active and its asset is
    /// resident.
    pub fn is_renderable(&self) -> (b: bool)
        ensures
            b == (self.render_slot is Some && self.lifecycle == SceneLifecycle::Active && self.residency
                == SceneResidency::Resident),
    {
        self.render_slot.is_some() && self.lifecycle == SceneLifecycle::Active && self.residency
            == SceneResidency::Resident
    }
}

/// One recorded change of an entity: its revision after the change, the frame
/// and source of the change, what changed, and the process state of the
/// entity at that moment.
pub struct SceneMutationRecord {
    pub entity: u64,
    pub revision: u64,
    pub frame: u64,
    pub source: SceneMutationSource,
    pub dirty: SceneDirtyFlags,
    pub process_active: bool,
    pub process_claims: StrMap<Vec<String>>,
}

/// Whether `snapshot` lists, for each claimed reason, its owners in byte order.
pub open spec fn snapshot_of(snapshot: StrMap<Vec<String>>, claims: Map<Seq<char>, Set<Seq<char>>>) -> bool {
    &&& snapshot@.dom() == claims.dom()
    &&& forall|reason: Seq<char>| #[trigger] snapshot@.contains_key(reason) ==> sorted_names(snapshot@[reason]@, claims[reason])
}

/// Why a scene world operation was refused.
#[derive(Clone, Debug, PartialEq, Eq)]
pub enum SceneWorldError {
    /// An entity with this id exists already.
    DuplicateEntity(u64),
    /// No entity has this id.
    EntityNotFound(u64),
    /// An added entity names a parent that does not exist; the entity stays added.
    AddedParentNotFound { parent: u64, child: u64 },
    /// The entity to re-parent does not exist.
    ChildNotFound(u64),
    /// The new parent does not exist.
    ParentNotFound(u64),
    /// An entity cannot be its own parent.
    SelfParent(u64),
    /// The child is an ancestor of the new parent.
    HierarchyCycle { child: u64, parent: u64 },
    /// A removed entity cannot become active again.
    ReactivateRemoved(u64),
    /// Dormancy cannot change while an entity is being removed.
    DormancyWhileRemoving(u64),
    /// Claims cannot change while an entity is being removed.
    ClaimsWhileRemoving(u64),
    /// A process owner or reason label was refused.
    Label(ProcessLabelError),
    /// An entity without an asset is always resident.
    NoAssetRef { id: u64, residency: SceneResidency },
}

/// The entities of a scene, indexed by id, with the process-control set and
/// the mutations recorded since the last drain.
pub struct SceneLedger {
    entities: Vec<SceneEntityRecord>,
    by_id: BTreeMap<u64, usize>,
    frame: u64,
    mutations: Vec<SceneMutationRecord>,
    process_active: BTreeSet<u64>,
}

/// Whether an entity takes part in process control: it is active and some
/// reason is claimed for it.
pub open spec fn process_eligible(e: EntityView) -> bool {
    e.lifecycle == SceneLifecycle::Active && e.claims != Map::<Seq<char>, Set<Seq<char>>>::empty()
}

/// The index maps each id to the position of its entity, and nothing else.
spec fn index_ok(es: Seq<SceneEntityRecord>, ix: Map<u64, usize>) -> bool {
    &&& forall|i: int| 0 <= i < es.len() ==> #[trigger] ix.contains_key(es[i].id) && ix[es[i].id] == i
    &&& forall|id: u64| #[trigger] ix.contains_key(id) ==> ix[id] < es.len() && es[ix[id] as int].id == id
}

/// Only eligible entities are under process control.
spec fn process_ok(es: Seq<SceneEntityRecord>, ix: Map<u64, usize>, members: Set<u64>) -> bool {
    forall|id: u64| #[trigger] members.contains(id) ==> ix.contains_key(id) && process_eligible(es[ix[id] as int]@)
}

impl SceneLedger {
    /// Each entity by its id.
    pub closed spec fn model(self) -> Map<u64, EntityView> {
        Map::new(|id: u64| self.by_id@.contains_key(id), |id: u64| self.entities@[self.by_id@[id] as int]@)
    }

    /// The ids of the entities in the order they were added.
    pub closed spec fn order(self) -> Seq<u64> {
        self.entities@.map_values(|e: SceneEntityRecord| e.id)
    }

    /// The frame counter.
    pub closed spec fn frame_count(self) -> u64 {
        self.frame
    }

    /// The mutations recorded since the last drain, oldest first.
    pub closed spec fn pending(self) -> Seq<SceneMutationRecord> {
        self.mutations@
    }

    /// The entities under process control.
    pub closed spec fn process_members(self) -> Set<u64> {
        self.process_active@
    }

    /// The index agrees with the entities, and only eligible entities are
    /// under process control.
    pub closed spec fn wf(self) -> bool {
        &&& index_ok(self.entities@, self.by_id@)
        &&& process_ok(self.entities@, self.by_id@, self.process_active@)
    }

    /// An empty world at frame 0.
    pub fn new() -> (w: Self)
        ensures
            w.wf(),
            w.model() == Map::<u64, EntityView>::empty(),
            w.order() == Seq::<u64>::empty(),
            w.frame_count() == 0,
            w.pending() == Seq::<SceneMutationRecord>::empty(),
            w.process_members() == Set::<u64>::empty(),
    {
        let w = SceneLedger {
            entities: Vec::new(),
            by_id: BTreeMap::new(),
            frame: 0,
            mutations: Vec::new(),
            process_active: BTreeSet::new(),
        };
        proof {
            assert(w.model() =~= Map::<u64, EntityView>::empty());
            assert(w.order() =~= Seq::<u64>::empty());
        }
        w
    }

    /// The position of the entity `id` in the entity list.
    fn index_of(&self, id: u64) -> (r: Option<usize>)
        requires
            self.wf(),
        ensures
            r is Some <==> self.model().contains_key(id),
            r matches Some(i) ==> i < self.entities@.len() && self.entities@[i as int].id == id && self.by_id@[id] == i,
    {
        match self.by_id.get(&id) {
            Some(i) => Some(*i),
            None => None,
        }
    }

    /// The record of entity `id`.
    pub fn entity(&self, id: u64) -> (r: Option<&SceneEntityRecord>)
        requires
            self.wf(),
        ensures
            r is Some <==> self.model().contains_key(id),
            r matches Some(e) ==> e@ == self.model()[id],
    {
        match self.index_of(id) {
            Some(i) => Some(&self.entities[i]),
            None => None,
        }
    }
}


/// Ledgers that agree on every observable part.
pub open spec fn same_state(a: SceneLedger, b: SceneLedger) -> bool {
    &&& a.model() == b.model()
    &&& a.order() == b.order()
    &&& a.frame_count() == b.frame_count()
    &&& a.pending() == b.pending()
    &&& a.process_members() == b.process_members()
}

/// The revision after one more change: it counts up, wraps past `u64::MAX`
/// and never comes back to 0, which marks an entity as never changed.
pub open spec fn bumped(revision: u64) -> u64 {
    if revision == u64::MAX {
        1
    } else {
        (revision + 1) as u64
    }
}

/// An entity after a change recorded in `frame`.
pub open spec fn after_change(e: EntityView, frame: u64) -> EntityView {
    EntityView { revision: bumped(e.revision), last_mutation_frame: frame, ..e }
}

/// Whether `m` records a change of `e` (as it is after the change) in `frame`.
pub open spec fn records_change(
    m: SceneMutationRecord,
    e: EntityView,
    frame: u64,
    source: SceneMutationSource,
    dirty: SceneDirtyFlags,
    process_active: bool,
) -> bool {
    &&& m.entity == e.id
    &&& m.revision == e.revision
    &&& m.frame == frame
    &&& m.source == source
    &&& m.dirty == dirty
    &&& m.process_active == process_active
    &&& snapshot_of(m.process_claims, e.claims)
}

/// `after` holds the mutations of `before` and one more, which records a
/// change of `e` in `frame`.
pub open spec fn one_more_change(
    before: Seq<SceneMutationRecord>,
    after: Seq<SceneMutationRecord>,
    e: EntityView,
    frame: u64,
    source: SceneMutationSource,
    dirty: SceneDirtyFlags,
    process_active: bool,
) -> bool {
    &&& after.len() == before.len() + 1
    &&& after.take(before.len() as int) == before
    &&& records_change(after.last(), e, frame, source, dirty, process_active)
}

impl SceneLedger {
    /// Replacing the record at `i` by one with the same id changes the model
    /// at that id only; where the lifecycle and claims stay, the process
    /// control set stays valid.
    proof fn lemma_replace(old: SceneLedger, new: SceneLedger, i: int)
        requires
            index_ok(old.entities@, old.by_id@),
            0 <= i < old.entities@.len(),
            new.by_id@ == old.by_id@,
            new.entities@ == old.entities@.update(i, new.entities@[i]),
            new.entities@[i].id == old.entities@[i].id,
        ensures
            new.model() == old.model().insert(old.entities@[i].id, new.entities@[i]@),
            new.order() == old.order(),
            index_ok(new.entities@, new.by_id@),
            process_ok(old.entities@, old.by_id@, new.process_active@) && new.entities@[i]@.lifecycle
                == old.entities@[i]@.lifecycle && new.entities@[i]@.claims == old.entities@[i]@.claims
                ==> process_ok(new.entities@, new.by_id@, new.process_active@),
    {
        let id = old.entities@[i].id;
        assert(new.model() =~= old.model().insert(id, new.entities@[i]@)) by {
            assert forall|k: u64| #[trigger] new.model().contains_key(k) implies new.model()[k] == old.model().insert(id, new.entities@[i]@)[k] by {
                let j = old.by_id@[k] as int;
                if j == i {
                    assert(k == id);
                }
            }
        }
        assert(new.order() =~= old.order()) by {
            assert forall|k: int| 0 <= k < new.entities@.len() implies new.order()[k] == old.order()[k] by {
                if k == i {
                } else {
                    assert(new.entities@[k] == old.entities@[k]);
                }
            }
        }
        assert forall|k: int| 0 <= k < new.entities@.len() implies #[trigger] new.by_id@.contains_key(new.entities@[k].id)
            && new.by_id@[new.entities@[k].id] == k by {
            if k != i {
                assert(new.entities@[k] == old.entities@[k]);
            }
        }
        if process_ok(old.entities@, old.by_id@, new.process_active@) && new.entities@[i]@.lifecycle
            == old.entities@[i]@.lifecycle && new.entities@[i]@.claims == old.entities@[i]@.claims {
            assert forall|k: u64| #[trigger] new.process_active@.contains(k) implies new.by_id@.contains_key(k)
                && process_eligible(new.entities@[new.by_id@[k] as int]@) by {
                let j = new.by_id@[k] as int;
                if j != i {
                    assert(new.entities@[j] == old.entities@[j]);
                }
            }
        }
    }

    /// The well-formedness of a ledger depends on its entities, index and
    /// process-control set only.
    proof fn lemma_wf_frame(old: SceneLedger, new: SceneLedger)
        requires
            old.wf(),
            new.entities == old.entities,
            new.by_id == old.by_id,
            new.process_active == old.process_active,
        ensures
            new.wf(),
    {
    }

    /// Makes the process-control membership of the entity at `i` follow its
    /// eligibility.
    fn refresh_process_membership(&mut self, i: usize)
        requires
            i < old(self).entities@.len(),
            index_ok(old(self).entities@, old(self).by_id@),
            forall|id: u64| #[trigger] old(self).process_active@.contains(id) && id != old(self).entities@[i as int].id
                ==> old(self).by_id@.contains_key(id) && process_eligible(old(self).entities@[old(self).by_id@[id] as int]@),
        ensures
            final(self).wf(),
            final(self).entities == old(self).entities,
            final(self).by_id == old(self).by_id,
            final(self).frame == old(self).frame,
            final(self).mutations == old(self).mutations,
            final(self).process_active@ == if process_eligible(old(self).entities@[i as int]@) {
                old(self).process_active@.insert(old(self).entities@[i as int].id)
            } else {
                old(self).process_active@.remove(old(self).entities@[i as int].id)
            },
    {
        let id = self.entities[i].id;
        let active = self.entities[i].lifecycle == SceneLifecycle::Active && self.entities[i].process_claims.active();
        if active {
            self.process_active.insert(id);
        } else {
            self.process_active.remove(&id);
        }
    }

    /// Records a change of the entity at `i`: its revision moves on, its last
    /// mutation frame becomes the current frame, and the change is logged.
    fn record_at(&mut self, i: usize, source: SceneMutationSource, dirty: SceneDirtyFlags)
        requires
            old(self).wf(),
            i < old(self).entities@.len(),
        ensures
            final(self).wf(),
            final(self).model() == old(self).model().insert(
                old(self).entities@[i as int].id,
                after_change(old(self).entities@[i as int]@, old(self).frame),
            ),
            final(self).order() == old(self).order(),
            final(self).frame == old(self).frame,
            final(self).process_active == old(self).process_active,
            final(self).by_id == old(self).by_id,
            final(self).entities@.len() == old(self).entities@.len(),
            one_more_change(
                old(self).mutations@,
                final(self).mutations@,
                after_change(old(self).entities@[i as int]@, old(self).frame),
                old(self).frame,
                source,
                dirty,
                old(self).process_active@.contains(old(self).entities@[i as int].id),
            ),
    {
        let frame = self.frame;
        let id = self.entities[i].id;
        let process_active = self.process_active.contains(&id);
        let ghost old_self = *self;
        let revision = self.entities[i].revision.wrapping_add(1);
        let revision = if revision < 1 { 1 } else { revision };
        self.entities[i].revision = revision;
        self.entities[i].last_mutation_frame = frame;
        proof {
            assert(self.entities@ == old_self.entities@.update(i as int, self.entities@[i as int]));
            Self::lemma_replace(old_self, *self, i as int);
            assert(self.entities@[i as int]@ =~= after_change(old_self.entities@[i as int]@, frame));
            assert forall|k: u64| #[trigger] self.process_active@.contains(k) implies self.by_id@.contains_key(k)
                && process_eligible(self.entities@[self.by_id@[k] as int]@) by {
                let j = self.by_id@[k] as int;
                if j != i {
                    assert(self.entities@[j] == old_self.entities@[j]);
                } else {
                    assert(self.entities@[j]@.lifecycle == old_self.entities@[j]@.lifecycle);
                    assert(self.entities@[j]@.claims == old_self.entities@[j]@.claims);
                }
            }
            assert(self.wf());
        }
        let claims = self.entities[i].process_claims.snapshot();
        let ghost before = self.mutations@;
        let ghost mid = *self;
        self.mutations.push(SceneMutationRecord { entity: id, revision, frame, source, dirty, process_active, process_claims: claims });
        proof {
            Self::lemma_wf_frame(mid, *self);
            assert(self.mutations@.take(before.len() as int) =~= before);
        }
    }

    /// Records a change of entity `id` made by `source`; an empty change is
    /// not recorded.
    pub fn record_mutation(&mut self, id: u64, source: SceneMutationSource, dirty: SceneDirtyFlags) -> (r: Result<(), SceneWorldError>)
        requires
            old(self).wf(),
        ensures
            final(self).wf(),
            dirty.0 == DIRTY_EMPTY ==> r is Ok && same_state(*final(self), *old(self)),
            dirty.0 != DIRTY_EMPTY && !old(self).model().contains_key(id) ==> r == Err::<(), SceneWorldError>(SceneWorldError::EntityNotFound(id))
                && same_state(*final(self), *old(self)),
            dirty.0 != DIRTY_EMPTY && old(self).model().contains_key(id) ==> {
                &&& r is Ok
                &&& final(self).model() == old(self).model().insert(id, after_change(old(self).model()[id], old(self).frame_count()))
                &&& final(self).order() == old(self).order()
                &&& final(self).frame_count() == old(self).frame_count()
                &&& final(self).process_members() == old(self).process_members()
                &&& one_more_change(
                    old(self).pending(),
                    final(self).pending(),
                    after_change(old(self).model()[id], old(self).frame_count()),
                    old(self).frame_count(),
                    source,
                    dirty,
                    old(self).process_members().contains(id),
                )
            },
    {
        if dirty.0 == DIRTY_EMPTY {
            return Ok(());
        }
        match self.index_of(id) {
            None => Err(SceneWorldError::EntityNotFound(id)),
            Some(i) => {
                self.record_at(i, source, dirty);
                Ok(())
            },
        }
    }

    /// Hands out the recorded mutations, oldest first, and forgets them.
    pub fn drain_mutations(&mut self) -> (r: Vec<SceneMutationRecord>)
        requires
            old(self).wf(),
        ensures
            final(self).wf(),
            r@ == old(self).pending(),
            final(self).pending() == Seq::<SceneMutationRecord>::empty(),
            final(self).model() == old(self).model(),
            final(self).order() == old(self).order(),
            final(self).frame_count() == old(self).frame_count(),
            final(self).process_members() == old(self).process_members(),
    {
        let mut out: Vec<SceneMutationRecord> = Vec::new();
        let ghost before = *self;
        std::mem::swap(&mut out, &mut self.mutations);
        proof {
            Self::lemma_wf_frame(before, *self);
        }
        out
    }

    /// Adds an entity; it enters the world as `Added`. Where it names a
    /// parent, it joins that parent's children; a parent that does not exist
    /// is an error, and the entity stays added.
    pub fn add_entity(&mut self, entity: SceneEntityRecord) -> (r: Result<(), SceneWorldError>)
        requires
            old(self).wf(),
        ensures
            final(self).wf(),
            old(self).model().contains_key(entity.id) ==> r == Err::<(), SceneWorldError>(SceneWorldError::DuplicateEntity(entity.id))
                && same_state(*final(self), *old(self)),
            !old(self).model().contains_key(entity.id) ==> {
                let id = entity.id;
                let added = EntityView { lifecycle: SceneLifecycle::Added, ..entity@ };
                &&& final(self).order() == old(self).order().push(id)
                &&& final(self).frame_count() == old(self).frame_count()
                &&& final(self).pending() == old(self).pending()
                &&& final(self).process_members() == old(self).process_members()
                &&& match entity.parent {
                    None => r is Ok && final(self).model() == old(self).model().insert(id, added),
                    Some(p) => if p == id {
                        r is Ok && final(self).model() == old(self).model().insert(id, EntityView { children: added.children.push(id), ..added })
                    } else if old(self).model().contains_key(p) {
                        r is Ok && final(self).model() == old(self).model().insert(id, added).insert(
                            p,
                            EntityView { children: old(self).model()[p].children.push(id), ..old(self).model()[p] },
                        )
                    } else {
                        r == Err::<(), SceneWorldError>(SceneWorldError::AddedParentNotFound { parent: p, child: id })
                            && final(self).model() == old(self).model().insert(id, added)
                    },
                }
            },
    {
        let id = entity.id;
        if self.by_id.contains_key(&id) {
            return Err(SceneWorldError::DuplicateEntity(id));
        }
        let mut entity = entity;
        entity.lifecycle = SceneLifecycle::Added;
        let parent = entity.parent;
        let ghost added_view = entity@;
        let ghost old_self = *self;
        let index = self.entities.len();
        self.entities.push(entity);
        self.by_id.insert(id, index);
        proof {
            assert(self.order() =~= old_self.order().push(id));
            assert(self.model() =~= old_self.model().insert(id, added_view)) by {
                assert forall|k: u64| #[trigger] self.model().contains_key(k) implies self.model()[k] == old_self.model().insert(id, added_view)[k] by {
                    if k != id {
                        let j = old_self.by_id@[k] as int;
                        assert(self.entities@[j] == old_self.entities@[j]);
                    }
                }
            }
            assert forall|k: int| 0 <= k < self.entities@.len() implies #[trigger] self.by_id@.contains_key(self.entities@[k].id)
                && self.by_id@[self.entities@[k].id] == k by {
                if k < index {
                    assert(self.entities@[k] == old_self.entities@[k]);
                }
            }
            assert forall|k: u64| #[trigger] self.process_active@.contains(k) && k != id implies self.by_id@.contains_key(k)
                && process_eligible(self.entities@[self.by_id@[k] as int]@) by {
                let j = old_self.by_id@[k] as int;
                assert(self.entities@[j] == old_self.entities@[j]);
            }
        }
        self.refresh_process_membership(index);
        proof {
            assert(!process_eligible(added_view));
            assert(!old_self.process_active@.contains(id));
            assert(self.process_active@ =~= old_self.process_active@);
        }
        match parent {
            None => Ok(()),
            Some(p) => match self.index_of(p) {
                Some(pi) => {
                    let ghost before = *self;
                    self.entities[pi].children.push(id);
                    proof {
                        assert(self.entities@ == before.entities@.update(pi as int, self.entities@[pi as int]));
                        Self::lemma_replace(before, *self, pi as int);
                        assert(self.entities@[pi as int]@ =~= EntityView { children: before.entities@[pi as int]@.children.push(id), ..before.entities@[pi as int]@ });
                        assert forall|k: u64| #[trigger] self.process_active@.contains(k) implies self.by_id@.contains_key(k)
                            && process_eligible(self.entities@[self.by_id@[k] as int]@) by {
                            let j = self.by_id@[k] as int;
                            if j != pi {
                                assert(self.entities@[j] == before.entities@[j]);
                            }
                        }
                    }
                    Ok(())
                },
                None => Err(SceneWorldError::AddedParentNotFound { parent: p, child: id }),
            },
        }
    }
}


// ---------------------------------------------------------------------------
// The hierarchy.

/// The parent of `id`, for an entity that exists.
pub open spec fn parent_in(m: Map<u64, EntityView>, id: u64) -> Option<u64> {
    if m.contains_key(id) {
        m[id].parent
    } else {
        None
    }
}

/// The `k`-th ancestor of `id`; `id` itself for 0. The walk up stops at an
/// entity without a parent, and at an id that names no entity.
pub open spec fn ancestor(m: Map<u64, EntityView>, id: u64, k: nat) -> Option<u64>
    decreases k,
{
    if k == 0 {
        Some(id)
    } else {
        match ancestor(m, id, (k - 1) as nat) {
            Some(a) => parent_in(m, a),
            None => None,
        }
    }
}

/// `a` is met on the walk up from `id`, `id` itself included.
pub open spec fn reaches(m: Map<u64, EntityView>, id: u64, a: u64) -> bool {
    exists|k: nat| ancestor(m, id, k) == Some(a)
}

/// No entity is its own ancestor.
pub open spec fn acyclic(m: Map<u64, EntityView>) -> bool {
    forall|id: u64, k: nat| k > 0 ==> #[trigger] ancestor(m, id, k) != Some(id)
}

/// `s` without the occurrences of `x`.
pub open spec fn without(s: Seq<u64>, x: u64) -> Seq<u64>
    decreases s.len(),
{
    if s.len() == 0 {
        s
    } else {
        let r = without(s.drop_last(), x);
        if s.last() == x {
            r
        } else {
            r.push(s.last())
        }
    }
}

/// The entities after `child` moves under `parent` in `frame`: it leaves the
/// children of its old parent, joins those of the new one once, and records
/// the change.
pub open spec fn reparented(m: Map<u64, EntityView>, child: u64, parent: Option<u64>, frame: u64) -> Map<u64, EntityView> {
    let old_parent = m[child].parent;
    m.map_entries(
        |id: u64, e: EntityView|
            {
                let left = if old_parent == Some(id) {
                    without(e.children, child)
                } else {
                    e.children
                };
                let joined = if parent == Some(id) && !left.contains(child) {
                    left.push(child)
                } else {
                    left
                };
                let e1 = EntityView { children: joined, ..e };
                if id == child {
                    after_change(EntityView { parent, ..e1 }, frame)
                } else {
                    e1
                }
            },
    )
}

proof fn lemma_ancestor_none(m: Map<u64, EntityView>, id: u64, k: nat, j: nat)
    requires
        ancestor(m, id, k) is None,
        k <= j,
    ensures
        ancestor(m, id, j) is None,
    decreases j - k,
{
    if k < j {
        lemma_ancestor_none(m, id, k, (j - 1) as nat);
    }
}

proof fn lemma_ancestor_compose(m: Map<u64, EntityView>, id: u64, i: nat, d: nat, a: u64)
    requires
        ancestor(m, id, i) == Some(a),
    ensures
        ancestor(m, id, i + d) == ancestor(m, a, d),
    decreases d,
{
    if d > 0 {
        lemma_ancestor_compose(m, id, i, (d - 1) as nat, a);
        assert((i + d - 1) as nat == i + (d - 1) as nat);
    }
}

/// On an acyclic hierarchy the walk up never repeats an entity.
proof fn lemma_walk_distinct(m: Map<u64, EntityView>, id: u64, i: nat, j: nat)
    requires
        acyclic(m),
        i < j,
        ancestor(m, id, j) is Some,
    ensures
        ancestor(m, id, i) != ancestor(m, id, j),
{
    if ancestor(m, id, i) is None {
        lemma_ancestor_none(m, id, i, j);
    } else {
        let a = ancestor(m, id, i).unwrap();
        lemma_ancestor_compose(m, id, i, (j - i) as nat, a);
        assert(i + (j - i) as nat == j);
        assert(ancestor(m, a, (j - i) as nat) != Some(a));
    }
}

/// On the walk up, every entity before the last step exists.
proof fn lemma_walk_in_domain(m: Map<u64, EntityView>, id: u64, j: nat, k: nat)
    requires
        j < k,
        ancestor(m, id, k) is Some,
    ensures
        ancestor(m, id, j) is Some,
        m.contains_key(ancestor(m, id, j).unwrap()),
    decreases k - j,
{
    if ancestor(m, id, j) is None {
        lemma_ancestor_none(m, id, j, k);
    }
    if j + 1 < k {
        lemma_walk_in_domain(m, id, j + 1, k);
    } else {
        assert(ancestor(m, id, (j + 1) as nat) is Some);
    }
    let a = ancestor(m, id, j).unwrap();
    assert(ancestor(m, id, (j + 1) as nat) == parent_in(m, a));
}

/// The walk up from `id` ends: it comes to an entity without a parent, or to
/// an id that names no entity.
pub open spec fn chain_ends(m: Map<u64, EntityView>, id: u64) -> bool {
    exists|k: nat| #[trigger] ancestor(m, id, k) is None
}

/// Where the walk up from `a` comes back to `a` after `period` steps, and
/// every step before that exists, the walk never ends.
proof fn lemma_walk_periodic(m: Map<u64, EntityView>, a: u64, period: nat, d: nat)
    requires
        period > 0,
        ancestor(m, a, period) == Some(a),
        forall|e: nat| e < period ==> #[trigger] ancestor(m, a, e) is Some,
    ensures
        ancestor(m, a, d) is Some,
    decreases d,
{
    if d >= period {
        lemma_walk_periodic(m, a, period, (d - period) as nat);
        lemma_ancestor_compose(m, a, period, (d - period) as nat, a);
        assert(period + (d - period) as nat == d);
    }
}

/// In a hierarchy of `n` entities, a walk up that ends does so within
/// `n + 1` steps.
proof fn lemma_walk_bounded_ends(m: Map<u64, EntityView>, ids: Seq<u64>, id: u64)
    requires
        chain_ends(m, id),
        forall|x: u64| #[trigger] m.contains_key(x) ==> ids.contains(x),
    ensures
        ancestor(m, id, ids.len() + 1) is None,
{
    let n = ids.len();
    if ancestor(m, id, n + 1) is Some {
        let walk = Seq::new(n + 1, |j: int| ancestor(m, id, j as nat).unwrap());
        assert forall|j: int| 0 <= j < walk.len() implies m.contains_key(#[trigger] walk[j]) by {
            lemma_walk_in_domain(m, id, j as nat, n + 1);
        }
        if walk.no_duplicates() {
            walk.unique_seq_to_set();
            ids.lemma_cardinality_of_set();
            vstd::seq_lib::seq_to_set_is_finite(ids);
            assert(walk.to_set().subset_of(ids.to_set())) by {
                assert forall|x: u64| walk.to_set().contains(x) implies ids.to_set().contains(x) by {
                    let j = choose|j: int| 0 <= j < walk.len() && walk[j] == x;
                    assert(m.contains_key(walk[j]));
                }
            }
            vstd::set_lib::lemma_len_subset(walk.to_set(), ids.to_set());
            assert(false);
        }
        let (x, y) = choose|x: int, y: int| 0 <= x < walk.len() && 0 <= y < walk.len() && x != y && walk[x] == walk[y];
        let i: nat = if x < y { x as nat } else { y as nat };
        let j: nat = if x < y { y as nat } else { x as nat };
        lemma_walk_in_domain(m, id, i, n + 1);
        lemma_walk_in_domain(m, id, j, n + 1);
        let a = ancestor(m, id, i).unwrap();
        assert(ancestor(m, id, j) == Some(a));
        lemma_ancestor_compose(m, id, i, (j - i) as nat, a);
        assert(i + (j - i) as nat == j);
        assert forall|e: nat| e < (j - i) as nat implies #[trigger] ancestor(m, a, e) is Some by {
            lemma_ancestor_compose(m, id, i, e, a);
            lemma_walk_in_domain(m, id, i + e, n + 1);
        }
        let k = choose|k: nat| #[trigger] ancestor(m, id, k) is None;
        if k <= n + 1 {
            if k < n + 1 {
                lemma_walk_in_domain(m, id, k, n + 1);
            }
        } else {
            lemma_ancestor_compose(m, id, i, (k - i) as nat, a);
            assert(i + (k - i) as nat == k);
            lemma_walk_periodic(m, a, (j - i) as nat, (k - i) as nat);
        }
    }
}

/// On an acyclic ledger every walk up ends.
pub proof fn lemma_acyclic_chain_ends(w: SceneLedger, id: u64)
    requires
        w.wf(),
        acyclic(w.model()),
    ensures
        chain_ends(w.model(), id),
{
    let m = w.model();
    assert forall|x: u64| #[trigger] m.contains_key(x) implies w.order().contains(x) by {
        w.lemma_model_in_order(x);
    }
    lemma_walk_bounded(m, w.order(), id);
    assert(ancestor(m, id, w.order().len() + 1) is None);
}

/// On an acyclic hierarchy of `n` entities no walk up takes `n + 1` steps.
proof fn lemma_walk_bounded(m: Map<u64, EntityView>, ids: Seq<u64>, id: u64)
    requires
        acyclic(m),
        forall|x: u64| #[trigger] m.contains_key(x) ==> ids.contains(x),
    ensures
        ancestor(m, id, ids.len() + 1) is None,
{
    let n = ids.len();
    if ancestor(m, id, n + 1) is Some {
        let walk = Seq::new(n + 1, |j: int| ancestor(m, id, j as nat).unwrap());
        assert forall|j: int| 0 <= j < walk.len() implies m.contains_key(#[trigger] walk[j]) by {
            lemma_walk_in_domain(m, id, j as nat, n + 1);
        }
        assert(walk.no_duplicates()) by {
            assert forall|a: int, b: int| 0 <= a < walk.len() && 0 <= b < walk.len() && a != b implies walk[a] != walk[b] by {
                lemma_walk_in_domain(m, id, a as nat, n + 1);
                lemma_walk_in_domain(m, id, b as nat, n + 1);
                if a < b {
                    lemma_walk_distinct(m, id, a as nat, b as nat);
                } else {
                    lemma_walk_distinct(m, id, b as nat, a as nat);
                }
            }
        }
        walk.unique_seq_to_set();
        ids.lemma_cardinality_of_set();
        vstd::seq_lib::seq_to_set_is_finite(ids);
        assert(walk.to_set().subset_of(ids.to_set())) by {
            assert forall|x: u64| walk.to_set().contains(x) implies ids.to_set().contains(x) by {
                let j = choose|j: int| 0 <= j < walk.len() && walk[j] == x;
                assert(m.contains_key(walk[j]));
            }
        }
        vstd::set_lib::lemma_len_subset(walk.to_set(), ids.to_set());
        assert(false);
    }
}

/// Where two hierarchies agree on the parent of every entity but `child`,
/// a walk that does not pass `child` is the same in both.
proof fn lemma_walk_agrees(m: Map<u64, EntityView>, m2: Map<u64, EntityView>, child: u64, id: u64, s: nat)
    requires
        forall|x: u64| x != child ==> #[trigger] parent_in(m2, x) == parent_in(m, x),
        forall|j: nat| j < s ==> #[trigger] ancestor(m2, id, j) != Some(child),
    ensures
        ancestor(m2, id, s) == ancestor(m, id, s),
    decreases s,
{
    if s > 0 {
        lemma_walk_agrees(m, m2, child, id, (s - 1) as nat);
        assert(ancestor(m2, id, (s - 1) as nat) != Some(child));
    }
}

/// A walk in the changed hierarchy that arrives at `child` arrives there in
/// the old hierarchy too.
proof fn lemma_first_arrival(m: Map<u64, EntityView>, m2: Map<u64, EntityView>, child: u64, id: u64, k: nat)
    requires
        forall|x: u64| x != child ==> #[trigger] parent_in(m2, x) == parent_in(m, x),
        ancestor(m2, id, k) == Some(child),
    ensures
        reaches(m, id, child),
    decreases k,
{
    if exists|j: nat| j < k && #[trigger] ancestor(m2, id, j) == Some(child) {
        let j = choose|j: nat| j < k && #[trigger] ancestor(m2, id, j) == Some(child);
        lemma_first_arrival(m, m2, child, id, j);
    } else {
        lemma_walk_agrees(m, m2, child, id, k);
    }
}

/// Moving `child` under a parent that it does not reach, or under none, keeps
/// an acyclic hierarchy acyclic.
pub(crate) proof fn lemma_reparent_acyclic(m: Map<u64, EntityView>, m2: Map<u64, EntityView>, child: u64)
    requires
        acyclic(m),
        m2.contains_key(child),
        forall|x: u64| x != child ==> #[trigger] parent_in(m2, x) == parent_in(m, x),
        m2[child].parent matches Some(p) ==> !reaches(m, p, child),
    ensures
        acyclic(m2),
{
    assert forall|x: u64, k: nat| k > 0 implies #[trigger] ancestor(m2, x, k) != Some(x) by {
        if ancestor(m2, x, k) == Some(x) {
            if exists|t: nat| t < k && #[trigger] ancestor(m2, x, t) == Some(child) {
                let t = choose|t: nat| t < k && #[trigger] ancestor(m2, x, t) == Some(child);
                lemma_ancestor_compose(m2, x, t, (k - t) as nat, child);
                assert(t + (k - t) as nat == k);
                lemma_ancestor_compose(m2, child, (k - t) as nat, t, x);
                assert((k - t) as nat + t == k);
                assert(ancestor(m2, child, k) == Some(child));
                assert(ancestor(m2, child, 0) == Some(child));
                assert(ancestor(m2, child, 1) == m2[child].parent);
                match m2[child].parent {
                    None => {
                        lemma_ancestor_none(m2, child, 1, k);
                    },
                    Some(p) => {
                        lemma_ancestor_compose(m2, child, 1, (k - 1) as nat, p);
                        assert(1 + (k - 1) as nat == k);
                        lemma_first_arrival(m, m2, child, p, (k - 1) as nat);
                    },
                }
            } else {
                lemma_walk_agrees(m, m2, child, x, k);
            }
        }
    }
}


/// `children` without `child`, in order.
fn children_without(children: &Vec<u64>, child: u64) -> (r: Vec<u64>)
    ensures
        r@ == without(children@, child),
{
    let mut out: Vec<u64> = Vec::new();
    let mut i: usize = 0;
    while i < children.len()
        invariant
            i <= children@.len(),
            out@ == without(children@.take(i as int), child),
        decreases children@.len() - i,
    {
        proof {
            assert(children@.take(i + 1).drop_last() =~= children@.take(i as int));
            assert(children@.take(i + 1).last() == children@[i as int]);
        }
        if children[i] != child {
            out.push(children[i]);
        }
        i = i + 1;
    }
    proof {
        assert(children@.take(children@.len() as int) =~= children@);
    }
    out
}

fn contains_id(v: &Vec<u64>, x: u64) -> (b: bool)
    ensures
        b == v@.contains(x),
{
    let mut i: usize = 0;
    while i < v.len()
        invariant
            i <= v@.len(),
            forall|j: int| 0 <= j < i ==> v@[j] != x,
        decreases v@.len() - i,
    {
        if v[i] == x {
            proof {
                assert(v@[i as int] == x);
            }
            return true;
        }
        i = i + 1;
    }
    false
}

fn same_parent(a: Option<u64>, b: Option<u64>) -> (r: bool)
    ensures
        r == (a == b),
{
    match (a, b) {
        (Some(x), Some(y)) => x == y,
        (None, None) => true,
        _ => false,
    }
}

/// The outcome of a re-parenting that passed its checks: nothing changes
/// where the parent stays the same; otherwise the hierarchy is relinked and
/// the change of the child recorded.
pub open spec fn relinked(
    old: SceneLedger,
    new: SceneLedger,
    child: u64,
    parent: Option<u64>,
) -> bool {
    if old.model()[child].parent == parent {
        same_state(new, old)
    } else {
        &&& new.model() == reparented(old.model(), child, parent, old.frame_count())
        &&& new.order() == old.order()
        &&& new.frame_count() == old.frame_count()
        &&& new.process_members() == old.process_members()
        &&& one_more_change(
            old.pending(),
            new.pending(),
            reparented(old.model(), child, parent, old.frame_count())[child],
            old.frame_count(),
            SceneMutationSource::Parent,
            SceneDirtyFlags(DIRTY_HIERARCHY),
            old.process_members().contains(child),
        )
    }
}

/// The entities after `child` leaves the children of `old_parent`.
pub open spec fn left_model(m: Map<u64, EntityView>, old_parent: Option<u64>, child: u64) -> Map<u64, EntityView> {
    match old_parent {
        Some(op) => if m.contains_key(op) {
            m.insert(op, EntityView { children: without(m[op].children, child), ..m[op] })
        } else {
            m
        },
        None => m,
    }
}

/// The entities after `parent` becomes the parent of `child`.
pub open spec fn moved_model(m: Map<u64, EntityView>, child: u64, parent: Option<u64>) -> Map<u64, EntityView> {
    m.insert(child, EntityView { parent, ..m[child] })
}

/// The entities after `child` joins the children of `parent`, once.
pub open spec fn joined_model(m: Map<u64, EntityView>, parent: Option<u64>, child: u64) -> Map<u64, EntityView> {
    match parent {
        Some(p) => if m.contains_key(p) && !m[p].children.contains(child) {
            m.insert(p, EntityView { children: m[p].children.push(child), ..m[p] })
        } else {
            m
        },
        None => m,
    }
}

/// The three steps of a re-parenting, and the recorded change, make up
/// `reparented`.
proof fn lemma_relink_model(m0: Map<u64, EntityView>, child: u64, old_parent: Option<u64>, parent: Option<u64>, frame: u64)
    requires
        m0.contains_key(child),
        m0[child].parent == old_parent,
        old_parent != parent,
        parent != Some(child),
        parent matches Some(p) ==> m0.contains_key(p),
    ensures
        ({
            let m3 = joined_model(moved_model(left_model(m0, old_parent, child), child, parent), parent, child);
            m3.insert(child, after_change(m3[child], frame)) == reparented(m0, child, parent, frame)
        }),
{
    let m1 = left_model(m0, old_parent, child);
    let m2 = moved_model(m1, child, parent);
    let m3 = joined_model(m2, parent, child);
    let m4 = m3.insert(child, after_change(m3[child], frame));
    let target = reparented(m0, child, parent, frame);
    assert(m4 =~= target) by {
        assert forall|id: u64| #[trigger] m4.contains_key(id) implies m4[id] == target[id] by {
            assert(m4[id] =~= target[id]);
        }
    }
}

impl SceneLedger {
    /// `child` leaves the children of `old_parent`, where it exists.
    fn leave_parent(&mut self, child: u64, old_parent: Option<u64>)
        requires
            old(self).wf(),
        ensures
            final(self).wf(),
            final(self).model() == left_model(old(self).model(), old_parent, child),
            final(self).order() == old(self).order(),
            final(self).entities@.len() == old(self).entities@.len(),
            final(self).by_id == old(self).by_id,
            final(self).frame == old(self).frame,
            final(self).mutations == old(self).mutations,
            final(self).process_active == old(self).process_active,
    {
        let ghost m0 = self.model();
        match old_parent {
            Some(op) => match self.index_of(op) {
                Some(opi) => {
                    let kept = children_without(&self.entities[opi].children, child);
                    let ghost before = *self;
                    self.entities[opi].children = kept;
                    proof {
                        assert(self.entities@ == before.entities@.update(opi as int, self.entities@[opi as int]));
                        Self::lemma_replace(before, *self, opi as int);
                        assert(self.entities@[opi as int]@ =~= EntityView { children: without(m0[op].children, child), ..m0[op] });
                    }
                },
                None => {},
            },
            None => {},
        }
    }

    /// The entity at `ci` takes `parent` as its parent.
    fn take_parent(&mut self, ci: usize, parent: Option<u64>)
        requires
            old(self).wf(),
            ci < old(self).entities@.len(),
        ensures
            final(self).wf(),
            final(self).model() == moved_model(old(self).model(), old(self).entities@[ci as int].id, parent),
            final(self).order() == old(self).order(),
            final(self).entities@.len() == old(self).entities@.len(),
            final(self).by_id == old(self).by_id,
            final(self).frame == old(self).frame,
            final(self).mutations == old(self).mutations,
            final(self).process_active == old(self).process_active,
    {
        let ghost before = *self;
        self.entities[ci].parent = parent;
        proof {
            assert(self.entities@ == before.entities@.update(ci as int, self.entities@[ci as int]));
            Self::lemma_replace(before, *self, ci as int);
            assert(self.entities@[ci as int]@ =~= EntityView { parent, ..before.model()[before.entities@[ci as int].id] });
        }
    }

    /// `child` joins the children of `parent`, unless it is one already.
    fn join_parent(&mut self, parent: Option<u64>, child: u64)
        requires
            old(self).wf(),
        ensures
            final(self).wf(),
            final(self).model() == joined_model(old(self).model(), parent, child),
            final(self).order() == old(self).order(),
            final(self).entities@.len() == old(self).entities@.len(),
            final(self).by_id == old(self).by_id,
            final(self).frame == old(self).frame,
            final(self).mutations == old(self).mutations,
            final(self).process_active == old(self).process_active,
    {
        let ghost m0 = self.model();
        match parent {
            Some(p) => match self.index_of(p) {
                Some(pi) => {
                    if !contains_id(&self.entities[pi].children, child) {
                        let ghost before = *self;
                        self.entities[pi].children.push(child);
                        proof {
                            assert(self.entities@ == before.entities@.update(pi as int, self.entities@[pi as int]));
                            Self::lemma_replace(before, *self, pi as int);
                            assert(self.entities@[pi as int]@ =~= EntityView { children: m0[p].children.push(child), ..m0[p] });
                        }
                    }
                },
                None => {},
            },
            None => {},
        }
    }
}

impl SceneLedger {
    /// The walk up from `p` looking for `child`: `Err` where it meets `child`,
    /// or where it runs longer than there are entities (a loop above `p`).
    fn walk_finds(&self, p: u64, child: u64) -> (found: bool)
        requires
            self.wf(),
        ensures
            found == (reaches(self.model(), p, child) || !chain_ends(self.model(), p)),
    {
        let ghost m = self.model();
        let n = self.entities.len();
        let mut cursor: Option<u64> = Some(p);
        let mut steps: usize = 0;
        proof {
            assert(ancestor(m, p, 0) == Some(p));
        }
        loop
            invariant
                self.wf(),
                m == self.model(),
                n == self.entities@.len(),
                steps <= n,
                cursor == ancestor(m, p, steps as nat),
                forall|j: nat| j < steps ==> #[trigger] ancestor(m, p, j) != Some(child),
            decreases n - steps,
        {
            match cursor {
                None => {
                    proof {
                        assert forall|j: nat| #[trigger] ancestor(m, p, j) != Some(child) by {
                            if j >= steps {
                                lemma_ancestor_none(m, p, steps as nat, j);
                            }
                        }
                    }
                    return false;
                },
                Some(c) => {
                    if c == child {
                        return true;
                    }
                    let next = match self.index_of(c) {
                        Some(ci) => self.entities[ci].parent,
                        None => None,
                    };
                    proof {
                        assert(ancestor(m, p, (steps + 1) as nat) == parent_in(m, c));
                        assert(next == parent_in(m, c));
                    }
                    if steps == n {
                        if next.is_some() {
                            proof {
                                if chain_ends(m, p) {
                                    assert forall|x: u64| #[trigger] m.contains_key(x) implies self.order().contains(x) by {
                                        let k = self.by_id@[x] as int;
                                        assert(self.order()[k] == x);
                                    }
                                    lemma_walk_bounded_ends(m, self.order(), p);
                                }
                            }
                            return true;
                        }
                        proof {
                            assert forall|j: nat| #[trigger] ancestor(m, p, j) != Some(child) by {
                                if j > steps {
                                    lemma_ancestor_none(m, p, (steps + 1) as nat, j);
                                }
                            }
                        }
                        return false;
                    }
                    cursor = next;
                    steps = steps + 1;
                },
            }
        }
    }

    /// Moves `child` under `parent`, or to the top with `None`. An entity
    /// cannot be its own parent, both must exist, and a parent whose walk up
    /// meets the child is refused as a cycle; the move is made when the walk
    /// up from the parent ends without meeting the child. A walk up that
    /// loops forever above the parent, which only a hierarchy that already
    /// holds a cycle can have, is refused as a cycle too.
    pub fn set_parent(&mut self, child: u64, parent: Option<u64>) -> (r: Result<(), SceneWorldError>)
        requires
            old(self).wf(),
        ensures
            final(self).wf(),
            parent == Some(child) ==> r == Err::<(), SceneWorldError>(SceneWorldError::SelfParent(child))
                && same_state(*final(self), *old(self)),
            parent != Some(child) && !old(self).model().contains_key(child) ==> r == Err::<(), SceneWorldError>(
                SceneWorldError::ChildNotFound(child),
            ) && same_state(*final(self), *old(self)),
            parent != Some(child) && old(self).model().contains_key(child) ==> match parent {
                Some(p) => if !old(self).model().contains_key(p) {
                    r == Err::<(), SceneWorldError>(SceneWorldError::ParentNotFound(p)) && same_state(*final(self), *old(self))
                } else if reaches(old(self).model(), p, child) {
                    r == Err::<(), SceneWorldError>(SceneWorldError::HierarchyCycle { child, parent: p })
                        && same_state(*final(self), *old(self))
                } else if chain_ends(old(self).model(), p) {
                    r is Ok && relinked(*old(self), *final(self), child, parent)
                } else {
                    r == Err::<(), SceneWorldError>(SceneWorldError::HierarchyCycle { child, parent: p })
                        && same_state(*final(self), *old(self))
                },
                None => r is Ok && relinked(*old(self), *final(self), child, parent),
            },
            acyclic(old(self).model()) ==> acyclic(final(self).model()),
    {
        let ghost m0 = self.model();
        if same_parent(parent, Some(child)) {
            return Err(SceneWorldError::SelfParent(child));
        }
        let ci = match self.index_of(child) {
            None => {
                return Err(SceneWorldError::ChildNotFound(child));
            },
            Some(i) => i,
        };
        match parent {
            Some(p) => {
                if self.index_of(p).is_none() {
                    return Err(SceneWorldError::ParentNotFound(p));
                }
                if self.walk_finds(p, child) {
                    return Err(SceneWorldError::HierarchyCycle { child, parent: p });
                }
            },
            None => {},
        }
        let old_parent = self.entities[ci].parent;
        if same_parent(old_parent, parent) {
            return Ok(());
        }
        let ghost frame = self.frame;
        self.leave_parent(child, old_parent);
        let ghost m1 = self.model();
        self.take_parent(ci, parent);
        let ghost m2 = self.model();
        self.join_parent(parent, child);
        let ghost m3 = self.model();
        self.record_at(ci, SceneMutationSource::Parent, SceneDirtyFlags(DIRTY_HIERARCHY));
        proof {
            lemma_relink_model(m0, child, old_parent, parent, frame);
            assert forall|x: u64| x != child implies #[trigger] parent_in(self.model(), x) == parent_in(m0, x) by {}
            if acyclic(m0) {
                lemma_reparent_acyclic(m0, self.model(), child);
            }
        }
        Ok(())
    }
}


// ---------------------------------------------------------------------------
// Lifecycle, claims, visibility and residency.

/// An entity with another lifecycle.
pub open spec fn with_lifecycle(e: EntityView, lifecycle: SceneLifecycle) -> EntityView {
    EntityView { lifecycle, ..e }
}

/// The process-control set after the membership of `e` follows its
/// eligibility.
pub open spec fn membership(members: Set<u64>, e: EntityView) -> Set<u64> {
    if process_eligible(e) {
        members.insert(e.id)
    } else {
        members.remove(e.id)
    }
}

/// `new` is `old` after entity `id` became `e`, the process-control set
/// became `members`, and the change was recorded by `source` as `dirty`.
pub open spec fn changed_and_recorded(
    old: SceneLedger,
    new: SceneLedger,
    id: u64,
    e: EntityView,
    members: Set<u64>,
    source: SceneMutationSource,
    dirty: SceneDirtyFlags,
) -> bool {
    &&& new.model() == old.model().insert(id, after_change(e, old.frame_count()))
    &&& new.order() == old.order()
    &&& new.frame_count() == old.frame_count()
    &&& new.process_members() == members
    &&& one_more_change(
        old.pending(),
        new.pending(),
        after_change(e, old.frame_count()),
        old.frame_count(),
        source,
        dirty,
        members.contains(id),
    )
}

impl SceneLedger {
    /// Every id of the model is listed in the order of adding.
    proof fn lemma_model_in_order(self, x: u64)
        requires
            self.wf(),
            self.model().contains_key(x),
        ensures
            self.order().contains(x),
    {
        let k = self.by_id@[x] as int;
        assert(self.order()[k] == x);
    }

    /// The model at the id of the entity at `i` is that entity.
    proof fn lemma_entry(s: SceneLedger, i: int)
        requires
            index_ok(s.entities@, s.by_id@),
            0 <= i < s.entities@.len(),
        ensures
            s.model().contains_key(s.entities@[i].id),
            s.model()[s.entities@[i].id] == s.entities@[i]@,
    {
    }

    /// Gives the entity at `i` another lifecycle, its process membership
    /// following.
    fn change_lifecycle_at(&mut self, i: usize, lifecycle: SceneLifecycle)
        requires
            old(self).wf(),
            i < old(self).entities@.len(),
        ensures
            final(self).wf(),
            final(self).model() == old(self).model().insert(
                old(self).entities@[i as int].id,
                with_lifecycle(old(self).entities@[i as int]@, lifecycle),
            ),
            final(self).process_members() == membership(
                old(self).process_members(),
                with_lifecycle(old(self).entities@[i as int]@, lifecycle),
            ),
            final(self).entities@.len() == old(self).entities@.len(),
            final(self).entities@[i as int].id == old(self).entities@[i as int].id,
            final(self).order() == old(self).order(),
            final(self).by_id == old(self).by_id,
            final(self).frame == old(self).frame,
            final(self).mutations == old(self).mutations,
    {
        let ghost before = *self;
        self.entities[i].lifecycle = lifecycle;
        proof {
            assert(self.entities@ == before.entities@.update(i as int, self.entities@[i as int]));
            Self::lemma_replace(before, *self, i as int);
            assert(self.entities@[i as int]@ =~= with_lifecycle(before.entities@[i as int]@, lifecycle));
            assert forall|k: u64| #[trigger] self.process_active@.contains(k) && k != self.entities@[i as int].id
                implies self.by_id@.contains_key(k) && process_eligible(self.entities@[self.by_id@[k] as int]@) by {
                let j = self.by_id@[k] as int;
                assert(j != i);
                assert(self.entities@[j] == before.entities@[j]);
            }
        }
        self.refresh_process_membership(i);
    }

    /// Makes entity `id` active, unless it is being removed or gone.
    pub fn activate_entity(&mut self, id: u64) -> (r: Result<(), SceneWorldError>)
        requires
            old(self).wf(),
        ensures
            final(self).wf(),
            !old(self).model().contains_key(id) ==> r == Err::<(), SceneWorldError>(SceneWorldError::EntityNotFound(id))
                && same_state(*final(self), *old(self)),
            old(self).model().contains_key(id) ==> match old(self).model()[id].lifecycle {
                SceneLifecycle::Active => r is Ok && same_state(*final(self), *old(self)),
                SceneLifecycle::PendingRemove | SceneLifecycle::Removed => r == Err::<(), SceneWorldError>(
                    SceneWorldError::ReactivateRemoved(id),
                ) && same_state(*final(self), *old(self)),
                _ => r is Ok && changed_and_recorded(
                    *old(self),
                    *final(self),
                    id,
                    with_lifecycle(old(self).model()[id], SceneLifecycle::Active),
                    membership(old(self).process_members(), with_lifecycle(old(self).model()[id], SceneLifecycle::Active)),
                    SceneMutationSource::Engine,
                    SceneDirtyFlags(DIRTY_LIFECYCLE),
                ),
            },
    {
        let i = match self.index_of(id) {
            None => {
                return Err(SceneWorldError::EntityNotFound(id));
            },
            Some(i) => i,
        };
        match self.entities[i].lifecycle {
            SceneLifecycle::Active => Ok(()),
            SceneLifecycle::PendingRemove | SceneLifecycle::Removed => Err(SceneWorldError::ReactivateRemoved(id)),
            _ => {
                let ghost m0 = self.model();
                proof {
                    Self::lemma_entry(*self, i as int);
                }
                self.change_lifecycle_at(i, SceneLifecycle::Active);
                proof {
                    Self::lemma_entry(*self, i as int);
                }
                self.record_at(i, SceneMutationSource::Engine, SceneDirtyFlags(DIRTY_LIFECYCLE));
                proof {
                    assert(self.model() =~= m0.insert(id, after_change(with_lifecycle(m0[id], SceneLifecycle::Active), self.frame)));
                }
                Ok(())
            },
        }
    }

    /// Puts entity `id` to sleep (`Dormant`) or wakes it (`Active`). A dormant
    /// entity leaves process control and keeps its claims.
    pub fn set_dormant(&mut self, id: u64, dormant: bool) -> (r: Result<(), SceneWorldError>)
        requires
            old(self).wf(),
        ensures
            final(self).wf(),
            !old(self).model().contains_key(id) ==> r == Err::<(), SceneWorldError>(SceneWorldError::EntityNotFound(id))
                && same_state(*final(self), *old(self)),
            old(self).model().contains_key(id) ==> {
                let e = old(self).model()[id];
                let target = if dormant {
                    SceneLifecycle::Dormant
                } else {
                    SceneLifecycle::Active
                };
                if e.lifecycle == SceneLifecycle::PendingRemove || e.lifecycle == SceneLifecycle::Removed {
                    r == Err::<(), SceneWorldError>(SceneWorldError::DormancyWhileRemoving(id)) && same_state(*final(self), *old(self))
                } else if e.lifecycle == target {
                    r is Ok && same_state(*final(self), *old(self))
                } else {
                    r is Ok && changed_and_recorded(
                        *old(self),
                        *final(self),
                        id,
                        with_lifecycle(e, target),
                        membership(old(self).process_members(), with_lifecycle(e, target)),
                        SceneMutationSource::Engine,
                        SceneDirtyFlags(DIRTY_LIFECYCLE),
                    )
                }
            },
    {
        let i = match self.index_of(id) {
            None => {
                return Err(SceneWorldError::EntityNotFound(id));
            },
            Some(i) => i,
        };
        let current = self.entities[i].lifecycle;
        if current == SceneLifecycle::PendingRemove || current == SceneLifecycle::Removed {
            return Err(SceneWorldError::DormancyWhileRemoving(id));
        }
        let target = if dormant {
            SceneLifecycle::Dormant
        } else {
            SceneLifecycle::Active
        };
        if current == target {
            return Ok(());
        }
        let ghost m0 = self.model();
        proof {
            Self::lemma_entry(*self, i as int);
        }
        self.change_lifecycle_at(i, target);
        proof {
            Self::lemma_entry(*self, i as int);
        }
        self.record_at(i, SceneMutationSource::Engine, SceneDirtyFlags(DIRTY_LIFECYCLE));
        proof {
            assert(self.model() =~= m0.insert(id, after_change(with_lifecycle(m0[id], target), self.frame)));
        }
        Ok(())
    }

    /// Marks entity `id` for removal. Its claims are dropped at once, so it
    /// leaves process control in the same step; the change records both.
    pub fn request_remove(&mut self, id: u64) -> (r: Result<(), SceneWorldError>)
        requires
            old(self).wf(),
        ensures
            final(self).wf(),
            !old(self).model().contains_key(id) ==> r == Err::<(), SceneWorldError>(SceneWorldError::EntityNotFound(id))
                && same_state(*final(self), *old(self)),
            old(self).model().contains_key(id) ==> {
                let e = old(self).model()[id];
                let removed = EntityView {
                    lifecycle: SceneLifecycle::PendingRemove,
                    claims: Map::<Seq<char>, Set<Seq<char>>>::empty(),
                    ..e
                };
                let dirty = if e.claims != Map::<Seq<char>, Set<Seq<char>>>::empty() {
                    SceneDirtyFlags(DIRTY_LIFECYCLE | DIRTY_PROCESS_CONTROL)
                } else {
                    SceneDirtyFlags(DIRTY_LIFECYCLE)
                };
                &&& r is Ok
                &&& if e.lifecycle == SceneLifecycle::PendingRemove || e.lifecycle == SceneLifecycle::Removed {
                    same_state(*final(self), *old(self))
                } else {
                    changed_and_recorded(
                        *old(self),
                        *final(self),
                        id,
                        removed,
                        old(self).process_members().remove(id),
                        SceneMutationSource::Engine,
                        dirty,
                    )
                }
            },
    {
        let i = match self.index_of(id) {
            None => {
                return Err(SceneWorldError::EntityNotFound(id));
            },
            Some(i) => i,
        };
        let current = self.entities[i].lifecycle;
        if current == SceneLifecycle::PendingRemove || current == SceneLifecycle::Removed {
            return Ok(());
        }
        let ghost before = *self;
        let ghost m0 = self.model();
        proof {
            Self::lemma_entry(*self, i as int);
        }
        self.entities[i].lifecycle = SceneLifecycle::PendingRemove;
        let cleared = self.entities[i].process_claims.clear();
        proof {
            assert(self.entities@ == before.entities@.update(i as int, self.entities@[i as int]));
            Self::lemma_replace(before, *self, i as int);
            assert forall|k: u64| #[trigger] self.process_active@.contains(k) && k != self.entities@[i as int].id
                implies self.by_id@.contains_key(k) && process_eligible(self.entities@[self.by_id@[k] as int]@) by {
                let j = self.by_id@[k] as int;
                assert(j != i);
                assert(self.entities@[j] == before.entities@[j]);
            }
            assert(self.entities@[i as int]@ =~= EntityView {
                lifecycle: SceneLifecycle::PendingRemove,
                claims: Map::<Seq<char>, Set<Seq<char>>>::empty(),
                ..before.entities@[i as int]@
            });
        }
        self.refresh_process_membership(i);
        let dirty = if cleared {
            SceneDirtyFlags(DIRTY_LIFECYCLE | DIRTY_PROCESS_CONTROL)
        } else {
            SceneDirtyFlags(DIRTY_LIFECYCLE)
        };
        proof {
            Self::lemma_entry(*self, i as int);
        }
        self.record_at(i, SceneMutationSource::Engine, dirty);
        proof {
            let removed = EntityView {
                lifecycle: SceneLifecycle::PendingRemove,
                claims: Map::<Seq<char>, Set<Seq<char>>>::empty(),
                ..m0[id]
            };
            assert(self.model() =~= m0.insert(id, after_change(removed, self.frame)));
            assert(self.process_active@ =~= before.process_active@.remove(id));
        }
        Ok(())
    }
}


/// Where an owner's claim or release changes nothing, the claims stay as
/// they are.
proof fn lemma_unchanged_claims(m: Map<Seq<char>, Set<Seq<char>>>, owner: Seq<char>, reason: Seq<char>, active: bool)
    requires
        crate::scene::reasons_have_owners(m),
        active ==> crate::scene::owners_of(m, reason).contains(owner),
        !active ==> !crate::scene::owners_of(m, reason).contains(owner),
    ensures
        crate::scene::claims_after_set(m, owner, reason, active) == m,
{
    let owners = crate::scene::owners_of(m, reason);
    if active {
        assert(owners.insert(owner) =~= owners);
        assert(m.insert(reason, owners) =~= m);
    } else {
        assert(owners.remove(owner) =~= owners);
        if owners == Set::<Seq<char>>::empty() {
            assert(m.remove(reason) =~= m);
        } else {
            assert(m.insert(reason, owners) =~= m);
        }
    }
}

/// The hidden channels after `channel` is shown or hidden.
pub open spec fn hidden_after(hidden: Set<Seq<char>>, channel: Seq<char>, visible: bool) -> Set<Seq<char>> {
    let c = crate::text::normalized_key(channel);
    if c.len() == 0 {
        hidden
    } else if visible {
        hidden.remove(c)
    } else {
        hidden.insert(c)
    }
}

impl SceneLedger {
    /// `owner` claims (`active`) or releases `reason` for entity `id`, both
    /// labels normalized first. Returns whether the claims changed; a change
    /// updates process control and is recorded by `source`.
    pub fn set_process_claim(
        &mut self,
        id: u64,
        owner: &str,
        reason: &str,
        active: bool,
        source: SceneMutationSource,
    ) -> (r: Result<bool, SceneWorldError>)
        requires
            old(self).wf(),
        ensures
            final(self).wf(),
            r is Err ==> same_state(*final(self), *old(self)),
            crate::scene::process_label(owner@) is None ==> r matches Err(SceneWorldError::Label(_)),
            crate::scene::process_label(owner@) is Some && crate::scene::process_label(reason@) is None ==> r matches Err(
                SceneWorldError::Label(_),
            ),
            ({
                let o = crate::scene::process_label(owner@);
                let rs = crate::scene::process_label(reason@);
                o is Some && rs is Some ==> if !old(self).model().contains_key(id) {
                    r == Err::<bool, SceneWorldError>(SceneWorldError::EntityNotFound(id))
                } else {
                    let e = old(self).model()[id];
                    let claims = crate::scene::claims_after_set(e.claims, o.unwrap(), rs.unwrap(), active);
                    let changed = if active {
                        !crate::scene::owners_of(e.claims, rs.unwrap()).contains(o.unwrap())
                    } else {
                        crate::scene::owners_of(e.claims, rs.unwrap()).contains(o.unwrap())
                    };
                    if e.lifecycle == SceneLifecycle::PendingRemove || e.lifecycle == SceneLifecycle::Removed {
                        r == Err::<bool, SceneWorldError>(SceneWorldError::ClaimsWhileRemoving(id))
                    } else if !changed {
                        r == Ok::<bool, SceneWorldError>(false) && same_state(*final(self), *old(self))
                    } else {
                        r == Ok::<bool, SceneWorldError>(true) && changed_and_recorded(
                            *old(self),
                            *final(self),
                            id,
                            EntityView { claims, ..e },
                            membership(old(self).process_members(), EntityView { claims, ..e }),
                            source,
                            SceneDirtyFlags(DIRTY_PROCESS_CONTROL),
                        )
                    }
                }
            }),
    {
        let owner = match normalize_process_label(owner, "owner") {
            Ok(v) => v,
            Err(e) => {
                return Err(SceneWorldError::Label(e));
            },
        };
        let reason = match normalize_process_label(reason, "reason") {
            Ok(v) => v,
            Err(e) => {
                return Err(SceneWorldError::Label(e));
            },
        };
        let i = match self.index_of(id) {
            None => {
                return Err(SceneWorldError::EntityNotFound(id));
            },
            Some(i) => i,
        };
        let current = self.entities[i].lifecycle;
        if current == SceneLifecycle::PendingRemove || current == SceneLifecycle::Removed {
            return Err(SceneWorldError::ClaimsWhileRemoving(id));
        }
        let ghost before = *self;
        let ghost m0 = self.model();
        let ghost o = owner@;
        let ghost rs = reason@;
        proof {
            Self::lemma_entry(*self, i as int);
        }
        let changed = self.entities[i].process_claims.set(owner, reason, active);
        proof {
            assert(self.entities@ == before.entities@.update(i as int, self.entities@[i as int]));
            Self::lemma_replace(before, *self, i as int);
            assert(self.entities@[i as int]@ =~= EntityView {
                claims: crate::scene::claims_after_set(m0[id].claims, o, rs, active),
                ..m0[id]
            });
        }
        if !changed {
            proof {
                lemma_unchanged_claims(m0[id].claims, o, rs, active);
                assert(self.entities@[i as int]@ =~= m0[id]);
                assert(self.model() =~= m0);
                assert(process_ok(self.entities@, self.by_id@, self.process_active@)) by {
                    assert forall|k: u64| #[trigger] self.process_active@.contains(k) implies self.by_id@.contains_key(k)
                        && process_eligible(self.entities@[self.by_id@[k] as int]@) by {
                        let j = self.by_id@[k] as int;
                        if j != i {
                            assert(self.entities@[j] == before.entities@[j]);
                        }
                    }
                }
            }
            return Ok(false);
        }
        proof {
            assert forall|k: u64| #[trigger] self.process_active@.contains(k) && k != self.entities@[i as int].id
                implies self.by_id@.contains_key(k) && process_eligible(self.entities@[self.by_id@[k] as int]@) by {
                let j = self.by_id@[k] as int;
                assert(j != i);
                assert(self.entities@[j] == before.entities@[j]);
            }
        }
        self.refresh_process_membership(i);
        proof {
            Self::lemma_entry(*self, i as int);
        }
        self.record_at(i, source, SceneDirtyFlags(DIRTY_PROCESS_CONTROL));
        proof {
            let e1 = EntityView { claims: crate::scene::claims_after_set(m0[id].claims, o, rs, active), ..m0[id] };
            assert(self.model() =~= m0.insert(id, after_change(e1, self.frame)));
        }
        Ok(true)
    }

    /// Shows or hides a visibility channel of entity `id`; a change is
    /// recorded.
    pub fn set_visibility(&mut self, id: u64, channel: &str, visible: bool) -> (r: Result<(), SceneWorldError>)
        requires
            old(self).wf(),
        ensures
            final(self).wf(),
            !old(self).model().contains_key(id) ==> r == Err::<(), SceneWorldError>(SceneWorldError::EntityNotFound(id))
                && same_state(*final(self), *old(self)),
            old(self).model().contains_key(id) ==> {
                let e = old(self).model()[id];
                let hidden = hidden_after(e.hidden, channel@, visible);
                &&& r is Ok
                &&& if hidden == e.hidden {
                    same_state(*final(self), *old(self))
                } else {
                    changed_and_recorded(
                        *old(self),
                        *final(self),
                        id,
                        EntityView { hidden, ..e },
                        old(self).process_members(),
                        SceneMutationSource::Engine,
                        SceneDirtyFlags(DIRTY_VISIBILITY),
                    )
                }
            },
    {
        let i = match self.index_of(id) {
            None => {
                return Err(SceneWorldError::EntityNotFound(id));
            },
            Some(i) => i,
        };
        let key = crate::text::normalize_key(channel);
        let was_visible = self.entities[i].visibility.visible_for(channel);
        let changed = !key.as_str().is_empty() && was_visible != visible;
        let ghost before = *self;
        let ghost m0 = self.model();
        proof {
            Self::lemma_entry(*self, i as int);
        }
        self.entities[i].visibility.set(channel, visible);
        proof {
            assert(self.entities@ == before.entities@.update(i as int, self.entities@[i as int]));
            Self::lemma_replace(before, *self, i as int);
            let h = hidden_after(m0[id].hidden, channel@, visible);
            assert(self.entities@[i as int]@ =~= EntityView { hidden: h, ..m0[id] });
            let c = crate::text::normalized_key(channel@);
            if changed {
                if visible {
                    assert(m0[id].hidden.contains(c));
                    assert(!h.contains(c));
                } else {
                    assert(h.contains(c));
                }
            } else {
                if c.len() > 0 {
                    if visible {
                        assert(!m0[id].hidden.contains(c));
                        assert(h =~= m0[id].hidden);
                    } else {
                        assert(m0[id].hidden.contains(c));
                        assert(h =~= m0[id].hidden);
                    }
                }
            }
            assert(changed == (h != m0[id].hidden));
        }
        if changed {
            proof {
                Self::lemma_entry(*self, i as int);
            }
            self.record_at(i, SceneMutationSource::Engine, SceneDirtyFlags(DIRTY_VISIBILITY));
            proof {
                let e1 = EntityView { hidden: hidden_after(m0[id].hidden, channel@, visible), ..m0[id] };
                assert(self.model() =~= m0.insert(id, after_change(e1, self.frame)));
            }
        } else {
            proof {
                assert(self.entities@[i as int]@ =~= m0[id]);
                assert(self.model() =~= m0);
            }
        }
        Ok(())
    }

    /// Moves entity `id` to another residency. It leaves process control
    /// until the runtime next refreshes it, and the change is recorded as a
    /// streaming one. An entity without an asset is always resident.
    pub fn set_residency(&mut self, id: u64, residency: SceneResidency) -> (r: Result<(), SceneWorldError>)
        requires
            old(self).wf(),
        ensures
            final(self).wf(),
            !old(self).model().contains_key(id) ==> r == Err::<(), SceneWorldError>(SceneWorldError::EntityNotFound(id))
                && same_state(*final(self), *old(self)),
            old(self).model().contains_key(id) ==> {
                let e = old(self).model()[id];
                if e.asset is None && residency != SceneResidency::Resident {
                    r == Err::<(), SceneWorldError>(SceneWorldError::NoAssetRef { id, residency }) && same_state(
                        *final(self),
                        *old(self),
                    )
                } else if e.residency == residency {
                    r is Ok && same_state(*final(self), *old(self))
                } else {
                    r is Ok && changed_and_recorded(
                        *old(self),
                        *final(self),
                        id,
                        EntityView { residency, ..e },
                        old(self).process_members().remove(id),
                        SceneMutationSource::Streaming,
                        SceneDirtyFlags(DIRTY_RESIDENCY),
                    )
                }
            },
    {
        let i = match self.index_of(id) {
            None => {
                return Err(SceneWorldError::EntityNotFound(id));
            },
            Some(i) => i,
        };
        if self.entities[i].asset_ref.is_none() && residency != SceneResidency::Resident {
            return Err(SceneWorldError::NoAssetRef { id, residency });
        }
        if self.entities[i].residency == residency {
            return Ok(());
        }
        let ghost before = *self;
        let ghost m0 = self.model();
        proof {
            Self::lemma_entry(*self, i as int);
        }
        self.entities[i].residency = residency;
        self.process_active.remove(&id);
        proof {
            assert(self.entities@ == before.entities@.update(i as int, self.entities@[i as int]));
            Self::lemma_replace(before, *self, i as int);
            assert(self.entities@[i as int]@ =~= EntityView { residency, ..m0[id] });
            assert(process_ok(self.entities@, self.by_id@, self.process_active@)) by {
                assert forall|k: u64| #[trigger] self.process_active@.contains(k) implies self.by_id@.contains_key(k)
                    && process_eligible(self.entities@[self.by_id@[k] as int]@) by {
                    let j = self.by_id@[k] as int;
                    assert(j != i);
                    assert(self.entities@[j] == before.entities@[j]);
                }
            }
            Self::lemma_entry(*self, i as int);
        }
        self.record_at(i, SceneMutationSource::Streaming, SceneDirtyFlags(DIRTY_RESIDENCY));
        proof {
            assert(self.model() =~= m0.insert(id, after_change(EntityView { residency, ..m0[id] }, self.frame)));
        }
        Ok(())
    }
}


/// An entity taken over by a runtime upsert: dynamic, with the asset and
/// render slot the upsert gives it, and the residency it sets, if any.
pub open spec fn taken_over(
    e: EntityView,
    asset: Option<Seq<char>>,
    render_slot: Option<usize>,
    residency: Option<SceneResidency>,
) -> EntityView {
    EntityView {
        mobility: SceneMobility::Dynamic,
        asset,
        render_slot,
        residency: match residency {
            Some(r) => r,
            None => e.residency,
        },
        ..e
    }
}

impl SceneLedger {
    /// Makes entity `id` a dynamic runtime entity with this asset and render
    /// slot, and the residency given, if any. Like the runtime's direct edit
    /// of the entity, this records no mutation.
    pub fn take_over_runtime_entity(
        &mut self,
        id: u64,
        asset_ref: Option<String>,
        render_slot: Option<usize>,
        residency: Option<SceneResidency>,
    ) -> (r: Result<(), SceneWorldError>)
        requires
            old(self).wf(),
        ensures
            final(self).wf(),
            !old(self).model().contains_key(id) ==> r == Err::<(), SceneWorldError>(SceneWorldError::EntityNotFound(id))
                && same_state(*final(self), *old(self)),
            old(self).model().contains_key(id) ==> r is Ok && final(self).model() == old(self).model().insert(
                id,
                taken_over(
                    old(self).model()[id],
                    match asset_ref {
                        Some(a) => Some(a@),
                        None => None,
                    },
                    render_slot,
                    residency,
                ),
            ) && final(self).order() == old(self).order() && final(self).frame_count() == old(self).frame_count()
                && final(self).pending() == old(self).pending() && final(self).process_members()
                == old(self).process_members(),
    {
        let i = match self.index_of(id) {
            None => {
                return Err(SceneWorldError::EntityNotFound(id));
            },
            Some(i) => i,
        };
        let ghost before = *self;
        let ghost m0 = self.model();
        proof {
            Self::lemma_entry(*self, i as int);
        }
        self.entities[i].mobility = SceneMobility::Dynamic;
        self.entities[i].asset_ref = asset_ref;
        self.entities[i].render_slot = render_slot;
        match residency {
            Some(r) => {
                self.entities[i].residency = r;
            },
            None => {},
        }
        proof {
            assert(self.entities@ == before.entities@.update(i as int, self.entities@[i as int]));
            Self::lemma_replace(before, *self, i as int);
            assert(self.entities@[i as int]@ =~= taken_over(
                m0[id],
                match asset_ref {
                    Some(a) => Some(a@),
                    None => None,
                },
                render_slot,
                residency,
            ));
        }
        Ok(())
    }
}

/// What the renderer worked out for one entity this frame, from positions,
/// bounds and distances: whether the focus lies within its streaming
/// distance, and whether it passes the distance and frustum tests.
#[derive(Clone, Copy, Debug, PartialEq, Eq, Structural)]
pub struct ScanInput {
    pub within_stream_distance: bool,
    pub in_view: bool,
}

/// The lists and counts a visibility scan reads off the entities.
#[derive(Clone, Copy, Debug, PartialEq, Eq, Structural)]
pub enum ScanClass {
    /// Active, let through by its ancestors, wanting its asset streamed and
    /// not loaded: its asset is requested.
    Requested,
    /// Active, let through by its ancestors, with an asset and the focus
    /// within its streaming distance.
    Streaming,
    /// Drawable, let through by its ancestors and in view.
    Visible,
    /// Not visible.
    Culled,
    /// Active, let through by its ancestors and resident.
    Resident,
    /// Active, let through by its ancestors and dynamic.
    Dynamic,
}

/// Whether an entity is in `class`; `eligible` says whether it is active and
/// let through by its ancestors.
pub open spec fn in_scan_class(class: ScanClass, e: EntityView, eligible: bool, x: ScanInput) -> bool {
    match class {
        ScanClass::Requested => eligible && e.asset is Some && x.within_stream_distance && e.residency
            == SceneResidency::Unloaded,
        ScanClass::Streaming => eligible && e.asset is Some && x.within_stream_distance,
        ScanClass::Visible => eligible && drawable(e) && x.in_view,
        ScanClass::Culled => !(eligible && drawable(e) && x.in_view),
        ScanClass::Resident => eligible && e.residency == SceneResidency::Resident,
        ScanClass::Dynamic => eligible && e.mobility == SceneMobility::Dynamic,
    }
}

/// The ids, among the first `k` in `order`, of the entities in `class`.
pub open spec fn scan_filter(
    m: Map<u64, EntityView>,
    order: Seq<u64>,
    xs: Seq<ScanInput>,
    k: int,
    class: ScanClass,
) -> Seq<u64>
    decreases k,
{
    if k <= 0 {
        Seq::empty()
    } else {
        let rest = scan_filter(m, order, xs, k - 1, class);
        let id = order[k - 1];
        let eligible = m[id].lifecycle == SceneLifecycle::Active && hierarchy_allows_spec(m, id, order.len() as nat);
        if in_scan_class(class, m[id], eligible, xs[k - 1]) {
            rest.push(id)
        } else {
            rest
        }
    }
}

/// What a visibility scan finds, the entities listed in scene order.
pub struct ScanPlan {
    pub requested: Vec<u64>,
    pub streaming: Vec<u64>,
    pub visible_entities: Vec<u64>,
    pub visible_render_slots: Vec<usize>,
    pub culled_count: usize,
    pub resident_count: usize,
    pub dynamic_count: usize,
    pub visible_count: usize,
}

/// The model after the entities `ids` were marked as requested.
pub open spec fn requested_model(m: Map<u64, EntityView>, ids: Seq<u64>) -> Map<u64, EntityView> {
    Map::new(
        |id: u64| m.contains_key(id),
        |id: u64| if ids.contains(id) {
            EntityView { residency: SceneResidency::Requested, ..m[id] }
        } else {
            m[id]
        },
    )
}

impl SceneLedger {
    /// Reads a visibility scan off the entities, given what the renderer
    /// worked out for each of them (`inputs`, in scene order). An entity
    /// takes part when it is active and its ancestors let it through; the
    /// lists follow scene order, and ordering them by streaming priority is
    /// the renderer's.
    pub fn plan_scan(&self, inputs: &Vec<ScanInput>) -> (p: ScanPlan)
        requires
            self.wf(),
            inputs@.len() == self.order().len(),
        ensures
            ({
                let m = self.model();
                let o = self.order();
                let n = o.len() as int;
                &&& p.requested@ == scan_filter(m, o, inputs@, n, ScanClass::Requested)
                &&& p.streaming@ == scan_filter(m, o, inputs@, n, ScanClass::Streaming)
                &&& p.visible_entities@ == scan_filter(m, o, inputs@, n, ScanClass::Visible)
                &&& p.visible_render_slots@ == p.visible_entities@.map_values(|id: u64| m[id].render_slot.unwrap())
                &&& p.culled_count == scan_filter(m, o, inputs@, n, ScanClass::Culled).len()
                &&& p.resident_count == scan_filter(m, o, inputs@, n, ScanClass::Resident).len()
                &&& p.dynamic_count == scan_filter(m, o, inputs@, n, ScanClass::Dynamic).len()
                &&& p.visible_count == p.visible_entities@.len()
            }),
    {
        let ghost m = self.model();
        let ghost o = self.order();
        let ghost xs = inputs@;
        let mut requested: Vec<u64> = Vec::new();
        let mut streaming: Vec<u64> = Vec::new();
        let mut visible: Vec<u64> = Vec::new();
        let mut slots: Vec<usize> = Vec::new();
        let mut culled: usize = 0;
        let mut resident: usize = 0;
        let mut dynamic: usize = 0;
        let mut i: usize = 0;
        while i < self.entities.len()
            invariant
                self.wf(),
                m == self.model(),
                o == self.order(),
                xs == inputs@,
                xs.len() == o.len(),
                o.len() == self.entities@.len(),
                i <= self.entities@.len(),
                requested@ == scan_filter(m, o, xs, i as int, ScanClass::Requested),
                streaming@ == scan_filter(m, o, xs, i as int, ScanClass::Streaming),
                visible@ == scan_filter(m, o, xs, i as int, ScanClass::Visible),
                slots@ == visible@.map_values(|id: u64| m[id].render_slot.unwrap()),
                culled == scan_filter(m, o, xs, i as int, ScanClass::Culled).len(),
                resident == scan_filter(m, o, xs, i as int, ScanClass::Resident).len(),
                dynamic == scan_filter(m, o, xs, i as int, ScanClass::Dynamic).len(),
                culled <= i,
                resident <= i,
                dynamic <= i,
            decreases self.entities@.len() - i,
        {
            proof {
                Self::lemma_entry(*self, i as int);
                assert(o[i as int] == self.entities@[i as int].id);
            }
            let e = &self.entities[i];
            let x = inputs[i];
            let eligible = e.lifecycle == SceneLifecycle::Active && self.hierarchy_allows(e.id);
            let streams = eligible && e.asset_ref.is_some() && x.within_stream_distance;
            if streams {
                streaming.push(e.id);
                if e.residency == SceneResidency::Unloaded {
                    requested.push(e.id);
                }
            }
            if eligible && e.residency == SceneResidency::Resident {
                resident = resident + 1;
            }
            if eligible && e.mobility == SceneMobility::Dynamic {
                dynamic = dynamic + 1;
            }
            let shows = eligible && e.render_slot.is_some() && e.residency == SceneResidency::Resident
                && e.visibility.all_visible() && x.in_view;
            if shows {
                let ghost before = visible@;
                visible.push(e.id);
                match e.render_slot {
                    Some(slot) => slots.push(slot),
                    None => {},
                }
                proof {
                    assert(visible@.map_values(|id: u64| m[id].render_slot.unwrap()) =~= before.map_values(
                        |id: u64| m[id].render_slot.unwrap(),
                    ).push(m[e.id].render_slot.unwrap()));
                }
            } else {
                culled = culled + 1;
            }
            i = i + 1;
        }
        ScanPlan {
            requested,
            streaming,
            visible_count: visible.len(),
            visible_entities: visible,
            visible_render_slots: slots,
            culled_count: culled,
            resident_count: resident,
            dynamic_count: dynamic,
        }
    }

    /// Marks the entities `ids` as requested from the asset streamer, as the
    /// scan does for those it lists; like the scan, this records no mutation.
    pub fn mark_requested(&mut self, ids: &Vec<u64>)
        requires
            old(self).wf(),
        ensures
            final(self).wf(),
            final(self).model() == requested_model(old(self).model(), ids@),
            final(self).order() == old(self).order(),
            final(self).frame_count() == old(self).frame_count(),
            final(self).pending() == old(self).pending(),
            final(self).process_members() == old(self).process_members(),
    {
        let ghost m0 = self.model();
        let ghost s0 = *self;
        let mut j: usize = 0;
        proof {
            assert(requested_model(m0, ids@.take(0)) =~= m0);
        }
        while j < ids.len()
            invariant
                self.wf(),
                j <= ids@.len(),
                self.model() == requested_model(m0, ids@.take(j as int)),
                self.order() == s0.order(),
                self.frame == s0.frame,
                self.mutations == s0.mutations,
                self.process_active == s0.process_active,
            decreases ids@.len() - j,
        {
            let id = ids[j];
            let ghost mj = self.model();
            proof {
                assert(ids@.take(j + 1) =~= ids@.take(j as int).push(id));
            }
            match self.index_of(id) {
                None => {
                    proof {
                        assert forall|k: u64| #[trigger] self.model().contains_key(k) implies self.model()[k]
                            == requested_model(m0, ids@.take(j + 1))[k] by {
                            assert(k != id);
                            assert(ids@.take(j + 1) == ids@.take(j as int).push(id));
                            assert(ids@.take(j + 1).contains(k) == ids@.take(j as int).contains(k));
                        }
                        assert(self.model() =~= requested_model(m0, ids@.take(j + 1)));
                    }
                },
                Some(i) => {
                    let ghost before = *self;
                    proof {
                        Self::lemma_entry(*self, i as int);
                    }
                    self.entities[i].residency = SceneResidency::Requested;
                    proof {
                        assert(self.entities@ == before.entities@.update(i as int, self.entities@[i as int]));
                        Self::lemma_replace(before, *self, i as int);
                        assert(self.entities@[i as int]@ =~= EntityView { residency: SceneResidency::Requested, ..mj[id] });
                        assert(self.model() == mj.insert(id, EntityView { residency: SceneResidency::Requested, ..mj[id] }));
                        assert(EntityView { residency: SceneResidency::Requested, ..mj[id] } =~= EntityView {
                            residency: SceneResidency::Requested,
                            ..m0[id]
                        });
                        assert forall|k: u64| #[trigger] self.model().contains_key(k) implies self.model()[k]
                            == requested_model(m0, ids@.take(j + 1))[k] by {
                            if k != id {
                                assert(ids@.take(j + 1) == ids@.take(j as int).push(id));
                                assert(ids@.take(j + 1).contains(k) == ids@.take(j as int).contains(k));
                            } else {
                                assert(ids@.take(j + 1)[j as int] == id);
                                assert(ids@.take(j + 1).contains(k));
                            }
                        }
                        assert(self.model() =~= requested_model(m0, ids@.take(j + 1)));
                    }
                },
            }
            j = j + 1;
        }
        proof {
            assert(ids@.take(ids@.len() as int) =~= ids@);
        }
    }
}

// ---------------------------------------------------------------------------
// Whole-world steps.

/// A removal that was requested is done.
pub open spec fn flushed(e: EntityView) -> EntityView {
    if e.lifecycle == SceneLifecycle::PendingRemove {
        with_lifecycle(e, SceneLifecycle::Removed)
    } else {
        e
    }
}

/// An entity waiting to start (added or dormant) becomes active.
pub open spec fn activated(e: EntityView) -> EntityView {
    if e.lifecycle == SceneLifecycle::Added || e.lifecycle == SceneLifecycle::Dormant {
        with_lifecycle(e, SceneLifecycle::Active)
    } else {
        e
    }
}

/// A newly added entity becomes active at the start of a frame.
pub open spec fn started(e: EntityView) -> EntityView {
    if e.lifecycle == SceneLifecycle::Added {
        with_lifecycle(e, SceneLifecycle::Active)
    } else {
        e
    }
}

/// The initial state is the baseline: no revision, changed in `frame`.
pub open spec fn sealed(e: EntityView, frame: u64) -> EntityView {
    EntityView { revision: 0, last_mutation_frame: frame, ..e }
}

/// Under process control, an entity is marked as processed in `frame`.
pub open spec fn processed(e: EntityView, members: Set<u64>, frame: u64) -> EntityView {
    if members.contains(e.id) {
        EntityView { last_process_frame: Some(frame), ..e }
    } else {
        e
    }
}

/// The ids of the eligible entities.
pub open spec fn eligible_ids(m: Map<u64, EntityView>) -> Set<u64> {
    Set::new(|id: u64| m.contains_key(id) && process_eligible(m[id]))
}

impl SceneLedger {
    /// Entities changed one by one by `f`, keeping their ids, change the
    /// model by `f`.
    proof fn lemma_map_all(old: SceneLedger, new: SceneLedger, f: spec_fn(EntityView) -> EntityView)
        requires
            index_ok(old.entities@, old.by_id@),
            new.by_id@ == old.by_id@,
            new.entities@.len() == old.entities@.len(),
            forall|j: int| 0 <= j < old.entities@.len() ==> #[trigger] new.entities@[j].id == old.entities@[j].id
                && new.entities@[j]@ == f(old.entities@[j]@),
        ensures
            new.model() == old.model().map_values(f),
            new.order() == old.order(),
            index_ok(new.entities@, new.by_id@),
    {
        assert(new.model() =~= old.model().map_values(f)) by {
            assert forall|k: u64| #[trigger] new.model().contains_key(k) implies new.model()[k] == old.model().map_values(f)[k] by {
                let j = old.by_id@[k] as int;
                assert(new.entities@[j].id == old.entities@[j].id);
            }
        }
        assert(new.order() =~= old.order()) by {
            assert forall|k: int| 0 <= k < new.entities@.len() implies new.order()[k] == old.order()[k] by {
                assert(new.entities@[k].id == old.entities@[k].id);
            }
        }
        assert forall|k: int| 0 <= k < new.entities@.len() implies #[trigger] new.by_id@.contains_key(new.entities@[k].id)
            && new.by_id@[new.entities@[k].id] == k by {
            assert(new.entities@[k].id == old.entities@[k].id);
        }
    }

    /// The set of eligible entities, built from scratch.
    fn eligible_set(&self) -> (set: BTreeSet<u64>)
        requires
            index_ok(self.entities@, self.by_id@),
        ensures
            set@ == eligible_ids(self.model()),
            process_ok(self.entities@, self.by_id@, set@),
    {
        let mut set: BTreeSet<u64> = BTreeSet::new();
        let mut i: usize = 0;
        while i < self.entities.len()
            invariant
                index_ok(self.entities@, self.by_id@),
                i <= self.entities@.len(),
                forall|id: u64| #[trigger] set@.contains(id) <==> exists|j: int|
                    0 <= j < i && #[trigger] self.entities@[j].id == id && process_eligible(self.entities@[j]@),
            decreases self.entities@.len() - i,
        {
            let e = &self.entities[i];
            if e.lifecycle == SceneLifecycle::Active && e.process_claims.active() {
                set.insert(e.id);
            }
            proof {
                assert forall|id: u64| #[trigger] set@.contains(id) <==> exists|j: int|
                    0 <= j < i + 1 && #[trigger] self.entities@[j].id == id && process_eligible(self.entities@[j]@) by {
                    if id == self.entities@[i as int].id && process_eligible(self.entities@[i as int]@) {
                        assert(self.entities@[i as int].id == id);
                    }
                }
            }
            i = i + 1;
        }
        proof {
            assert(set@ =~= eligible_ids(self.model())) by {
                assert forall|id: u64| set@.contains(id) <==> eligible_ids(self.model()).contains(id) by {
                    if set@.contains(id) {
                        let j = choose|j: int| 0 <= j < self.entities@.len() && #[trigger] self.entities@[j].id == id
                            && process_eligible(self.entities@[j]@);
                        assert(self.by_id@.contains_key(self.entities@[j].id));
                        assert(self.by_id@[id] == j);
                    }
                    if eligible_ids(self.model()).contains(id) {
                        let j = self.by_id@[id] as int;
                        assert(self.entities@[j].id == id);
                    }
                }
            }
        }
        set
    }

    /// Completes every requested removal.
    pub fn flush_removals(&mut self)
        requires
            old(self).wf(),
        ensures
            final(self).wf(),
            final(self).model() == old(self).model().map_values(|e: EntityView| flushed(e)),
            final(self).order() == old(self).order(),
            final(self).frame_count() == old(self).frame_count(),
            final(self).pending() == old(self).pending(),
            final(self).process_members() == old(self).process_members(),
    {
        let ghost orig = *self;
        let mut i: usize = 0;
        while i < self.entities.len()
            invariant
                orig.wf(),
                self.by_id == orig.by_id,
                self.frame == orig.frame,
                self.mutations == orig.mutations,
                self.process_active == orig.process_active,
                self.entities@.len() == orig.entities@.len(),
                i <= self.entities@.len(),
                forall|j: int| 0 <= j < i ==> #[trigger] self.entities@[j].id == orig.entities@[j].id
                    && self.entities@[j]@ == flushed(orig.entities@[j]@),
                forall|j: int| i <= j < self.entities@.len() ==> #[trigger] self.entities@[j] == orig.entities@[j],
            decreases self.entities@.len() - i,
        {
            if self.entities[i].lifecycle == SceneLifecycle::PendingRemove {
                self.entities[i].lifecycle = SceneLifecycle::Removed;
                proof {
                    assert(self.entities@[i as int]@ =~= flushed(orig.entities@[i as int]@));
                }
            }
            i = i + 1;
        }
        proof {
            Self::lemma_map_all(orig, *self, |e: EntityView| flushed(e));
            assert forall|k: u64| #[trigger] self.process_active@.contains(k) implies self.by_id@.contains_key(k)
                && process_eligible(self.entities@[self.by_id@[k] as int]@) by {
                let j = self.by_id@[k] as int;
                assert(self.entities@[j]@ == flushed(orig.entities@[j]@));
            }
        }
    }

    /// Starts every added or dormant entity, and rebuilds process control
    /// from scratch: exactly the eligible entities take part.
    pub fn activate_all(&mut self)
        requires
            old(self).wf(),
        ensures
            final(self).wf(),
            final(self).model() == old(self).model().map_values(|e: EntityView| activated(e)),
            final(self).process_members() == eligible_ids(final(self).model()),
            final(self).order() == old(self).order(),
            final(self).frame_count() == old(self).frame_count(),
            final(self).pending() == old(self).pending(),
    {
        let ghost orig = *self;
        let mut i: usize = 0;
        while i < self.entities.len()
            invariant
                orig.wf(),
                self.by_id == orig.by_id,
                self.frame == orig.frame,
                self.mutations == orig.mutations,
                self.entities@.len() == orig.entities@.len(),
                i <= self.entities@.len(),
                forall|j: int| 0 <= j < i ==> #[trigger] self.entities@[j].id == orig.entities@[j].id
                    && self.entities@[j]@ == activated(orig.entities@[j]@),
                forall|j: int| i <= j < self.entities@.len() ==> #[trigger] self.entities@[j] == orig.entities@[j],
            decreases self.entities@.len() - i,
        {
            let lc = self.entities[i].lifecycle;
            if lc == SceneLifecycle::Added || lc == SceneLifecycle::Dormant {
                self.entities[i].lifecycle = SceneLifecycle::Active;
                proof {
                    assert(self.entities@[i as int]@ =~= activated(orig.entities@[i as int]@));
                }
            }
            i = i + 1;
        }
        proof {
            Self::lemma_map_all(orig, *self, |e: EntityView| activated(e));
        }
        self.process_active = self.eligible_set();
    }

    /// Makes the current state the baseline: forgets the recorded mutations,
    /// resets every revision to 0 at the current frame, and rebuilds process
    /// control from scratch.
    pub fn seal_initial_state(&mut self)
        requires
            old(self).wf(),
        ensures
            final(self).wf(),
            final(self).model() == old(self).model().map_values(|e: EntityView| sealed(e, old(self).frame_count())),
            final(self).process_members() == eligible_ids(final(self).model()),
            final(self).pending() == Seq::<SceneMutationRecord>::empty(),
            final(self).order() == old(self).order(),
            final(self).frame_count() == old(self).frame_count(),
    {
        self.mutations = Vec::new();
        let ghost orig = *self;
        let frame = self.frame;
        let mut i: usize = 0;
        while i < self.entities.len()
            invariant
                orig.wf(),
                frame == orig.frame,
                self.by_id == orig.by_id,
                self.frame == orig.frame,
                self.mutations == orig.mutations,
                self.entities@.len() == orig.entities@.len(),
                i <= self.entities@.len(),
                forall|j: int| 0 <= j < i ==> #[trigger] self.entities@[j].id == orig.entities@[j].id
                    && self.entities@[j]@ == sealed(orig.entities@[j]@, frame),
                forall|j: int| i <= j < self.entities@.len() ==> #[trigger] self.entities@[j] == orig.entities@[j],
            decreases self.entities@.len() - i,
        {
            self.entities[i].revision = 0;
            self.entities[i].last_mutation_frame = frame;
            proof {
                assert(self.entities@[i as int]@ =~= sealed(orig.entities@[i as int]@, frame));
            }
            i = i + 1;
        }
        proof {
            Self::lemma_map_all(orig, *self, |e: EntityView| sealed(e, frame));
        }
        self.process_active = self.eligible_set();
    }

    /// Opens the next frame: the frame counter moves on (wrapping), and the
    /// entities added since the last frame become active. Process control is
    /// left as it is until the runtime refreshes it.
    pub fn begin_frame(&mut self)
        requires
            old(self).wf(),
        ensures
            final(self).wf(),
            final(self).frame_count() == if old(self).frame_count() == u64::MAX {
                0
            } else {
                (old(self).frame_count() + 1) as u64
            },
            final(self).model() == old(self).model().map_values(|e: EntityView| started(e)),
            final(self).order() == old(self).order(),
            final(self).pending() == old(self).pending(),
            final(self).process_members() == old(self).process_members(),
    {
        self.frame = self.frame.wrapping_add(1);
        let ghost orig = *self;
        let mut i: usize = 0;
        while i < self.entities.len()
            invariant
                orig.wf(),
                self.by_id == orig.by_id,
                self.frame == orig.frame,
                self.mutations == orig.mutations,
                self.process_active == orig.process_active,
                self.entities@.len() == orig.entities@.len(),
                i <= self.entities@.len(),
                forall|j: int| 0 <= j < i ==> #[trigger] self.entities@[j].id == orig.entities@[j].id
                    && self.entities@[j]@ == started(orig.entities@[j]@),
                forall|j: int| i <= j < self.entities@.len() ==> #[trigger] self.entities@[j] == orig.entities@[j],
            decreases self.entities@.len() - i,
        {
            if self.entities[i].lifecycle == SceneLifecycle::Added {
                self.entities[i].lifecycle = SceneLifecycle::Active;
                proof {
                    assert(self.entities@[i as int]@ =~= started(orig.entities@[i as int]@));
                }
            }
            i = i + 1;
        }
        proof {
            Self::lemma_map_all(orig, *self, |e: EntityView| started(e));
            assert forall|k: u64| #[trigger] self.process_active@.contains(k) implies self.by_id@.contains_key(k)
                && process_eligible(self.entities@[self.by_id@[k] as int]@) by {
                let j = self.by_id@[k] as int;
                assert(self.entities@[j]@ == started(orig.entities@[j]@));
            }
        }
    }

    /// Runs the process step of a frame: every entity under process control
    /// is marked as processed in this frame, then requested removals complete.
    pub fn update(&mut self)
        requires
            old(self).wf(),
        ensures
            final(self).wf(),
            final(self).model() == old(self).model().map_values(
                |e: EntityView| flushed(processed(e, old(self).process_members(), old(self).frame_count())),
            ),
            final(self).order() == old(self).order(),
            final(self).frame_count() == old(self).frame_count(),
            final(self).pending() == old(self).pending(),
            final(self).process_members() == old(self).process_members(),
    {
        let ghost orig = *self;
        let ghost members = self.process_active@;
        let frame = self.frame;
        let mut i: usize = 0;
        while i < self.entities.len()
            invariant
                orig.wf(),
                members == orig.process_active@,
                frame == orig.frame,
                self.by_id == orig.by_id,
                self.frame == orig.frame,
                self.mutations == orig.mutations,
                self.process_active == orig.process_active,
                self.entities@.len() == orig.entities@.len(),
                i <= self.entities@.len(),
                forall|j: int| 0 <= j < i ==> #[trigger] self.entities@[j].id == orig.entities@[j].id
                    && self.entities@[j]@ == processed(orig.entities@[j]@, members, frame),
                forall|j: int| i <= j < self.entities@.len() ==> #[trigger] self.entities@[j] == orig.entities@[j],
            decreases self.entities@.len() - i,
        {
            let id = self.entities[i].id;
            if self.process_active.contains(&id) {
                self.entities[i].last_process_frame = Some(frame);
                proof {
                    assert(self.entities@[i as int]@ =~= processed(orig.entities@[i as int]@, members, frame));
                }
            }
            i = i + 1;
        }
        let ghost mid = *self;
        proof {
            Self::lemma_map_all(orig, *self, |e: EntityView| processed(e, members, frame));
            assert forall|k: u64| #[trigger] self.process_active@.contains(k) implies self.by_id@.contains_key(k)
                && process_eligible(self.entities@[self.by_id@[k] as int]@) by {
                let j = self.by_id@[k] as int;
                assert(self.entities@[j]@ == processed(orig.entities@[j]@, members, frame));
            }
        }
        self.flush_removals();
        proof {
            assert(self.model() =~= orig.model().map_values(|e: EntityView| flushed(processed(e, members, frame))));
        }
    }
}


// ---------------------------------------------------------------------------
// Queries.

impl SceneLedger {
    /// The frame counter.
    pub fn frame(&self) -> (f: u64)
        ensures
            f == self.frame_count(),
    {
        self.frame
    }

    /// Whether entity `id` is under process control.
    pub fn process_is_active(&self, id: u64) -> (b: bool)
        ensures
            b == self.process_members().contains(id),
    {
        self.process_active.contains(&id)
    }

    /// How many entities are under process control.
    pub fn process_active_count(&self) -> (n: usize)
        ensures
            n == self.process_members().len(),
    {
        self.process_active.len()
    }

    /// The entities under process control, by increasing id.
    pub fn process_active_ids(&self) -> (r: Vec<u64>)
        ensures
            r@.to_set() == self.process_members(),
            forall|i: int, j: int| 0 <= i < j < r@.len() ==> r@[i] < r@[j],
    {
        let mut out: Vec<u64> = Vec::new();
        let ghost keys = vstd::std_specs::btree::spec_btree_keys_iter(&self.process_active).remaining().unref();
        proof {
            vstd::std_specs::btree::axiom_spec_btree_keys_iter(&self.process_active);
        }
        for id in it: self.process_active.iter()
            invariant
                it.seq().unref() == keys,
                out@.len() == it.index(),
                out@ == keys.take(it.index()),
        {
            proof {
                assert(keys.take(it.index() + 1) =~= keys.take(it.index()).push(*id));
            }
            out.push(*id);
        }
        proof {
            assert(out@ =~= keys);
            assert(out@.to_set() =~= self.process_members());
            let rem = vstd::std_specs::btree::spec_btree_keys_iter(&self.process_active).remaining();
            assert(vstd::laws_cmp::obeys_cmp::<&u64>());
            assert(vstd::std_specs::btree::increasing_seq(rem));
            assert forall|i: int, j: int| 0 <= i < j < out@.len() implies out@[i] < out@[j] by {
                assert(out@[i] == *rem[i] && out@[j] == *rem[j]);
                assert(vstd::std_specs::cmp::OrdSpec::cmp_spec(&rem[i], &rem[j]) is Less);
            }
        }
        out
    }

    /// The first entity, in the order of adding, that is not removed and
    /// bears `name`.
    pub fn entity_id_by_name(&self, name: &str) -> (r: Option<u64>)
        requires
            self.wf(),
        ensures
            match r {
                Some(id) => exists|i: int|
                    0 <= i < self.order().len() && self.order()[i] == id && #[trigger] named_live(self.model()[self.order()[i]], name@)
                        && forall|j: int| 0 <= j < i ==> !named_live(#[trigger] self.model()[self.order()[j]], name@),
                None => forall|i: int| 0 <= i < self.order().len() ==> !named_live(#[trigger] self.model()[self.order()[i]], name@),
            },
    {
        let mut i: usize = 0;
        while i < self.entities.len()
            invariant
                self.wf(),
                i <= self.entities@.len(),
                forall|j: int| 0 <= j < i ==> !named_live(#[trigger] self.model()[self.order()[j]], name@),
            decreases self.entities@.len() - i,
        {
            proof {
                Self::lemma_entry(*self, i as int);
            }
            let e = &self.entities[i];
            if e.lifecycle != SceneLifecycle::Removed && crate::text::compare_str(e.name.as_str(), name) == crate::text::KeyOrder::Equal {
                proof {
                    assert(self.order()[i as int] == e.id);
                    assert(named_live(self.model()[self.order()[i as int]], name@));
                }
                return Some(e.id);
            }
            proof {
                assert(self.order()[i as int] == e.id);
            }
            i = i + 1;
        }
        None
    }
}

/// An entity that is not removed and bears `name`.
pub open spec fn named_live(e: EntityView, name: Seq<char>) -> bool {
    e.lifecycle != SceneLifecycle::Removed && e.name == name
}

/// Only active entities with a claimed reason are ever under process control.
pub proof fn lemma_process_members_eligible(w: SceneLedger)
    requires
        w.wf(),
    ensures
        forall|id: u64| #[trigger] w.process_members().contains(id) ==> w.model().contains_key(id)
            && process_eligible(w.model()[id]),
{
}


// ---------------------------------------------------------------------------
// What the hierarchy lets through.

/// An ancestor that lets its descendants show: it exists, is active and
/// hides no channel.
pub open spec fn shows_descendants(m: Map<u64, EntityView>, a: u64) -> bool {
    m.contains_key(a) && m[a].lifecycle == SceneLifecycle::Active && m[a].hidden == Set::<Seq<char>>::empty()
}

/// Whether every ancestor of `id` lets it show, the walk up ending within
/// `n + 1` steps (`n` being the number of entities; a longer walk only
/// happens on a loop, and lets nothing through).
pub open spec fn hierarchy_allows_spec(m: Map<u64, EntityView>, id: u64, n: nat) -> bool {
    exists|k: nat|
        1 <= k <= n + 1 && #[trigger] ancestor(m, id, k) is None && forall|d: nat|
            1 <= d < k ==> (#[trigger] ancestor(m, id, d) matches Some(a) && shows_descendants(m, a))
}

/// Whether an entity is drawn this frame by its own state: renderable and
/// hiding no channel.
pub open spec fn drawable(e: EntityView) -> bool {
    &&& e.render_slot is Some
    &&& e.lifecycle == SceneLifecycle::Active
    &&& e.residency == SceneResidency::Resident
    &&& e.hidden == Set::<Seq<char>>::empty()
}

/// The render slots of the drawable entities among `ids` that the hierarchy
/// lets through, in the order of `ids`.
pub open spec fn render_slots(m: Map<u64, EntityView>, ids: Seq<u64>, n: nat) -> Seq<usize>
    decreases ids.len(),
{
    if ids.len() == 0 {
        Seq::empty()
    } else {
        let rest = render_slots(m, ids.drop_last(), n);
        let e = m[ids.last()];
        if drawable(e) && hierarchy_allows_spec(m, ids.last(), n) {
            rest.push(e.render_slot.unwrap())
        } else {
            rest
        }
    }
}

/// How many of `ids` name entities that are not removed.
pub open spec fn live_count(m: Map<u64, EntityView>, ids: Seq<u64>) -> nat
    decreases ids.len(),
{
    if ids.len() == 0 {
        0
    } else {
        live_count(m, ids.drop_last()) + if m[ids.last()].lifecycle != SceneLifecycle::Removed {
            1nat
        } else {
            0nat
        }
    }
}

/// How many of the entities `ids` are not removed and have `mobility`.
pub open spec fn mobility_count(m: Map<u64, EntityView>, ids: Seq<u64>, mobility: SceneMobility) -> nat
    decreases ids.len(),
{
    if ids.len() == 0 {
        0
    } else {
        mobility_count(m, ids.drop_last(), mobility) + if m[ids.last()].lifecycle != SceneLifecycle::Removed
            && m[ids.last()].mobility == mobility {
            1nat
        } else {
            0nat
        }
    }
}

impl SceneLedger {
    /// Whether the ancestors of `id` let it show. An entity that does not
    /// exist, or has no parent, is let through.
    pub fn hierarchy_allows(&self, id: u64) -> (b: bool)
        requires
            self.wf(),
        ensures
            b == hierarchy_allows_spec(self.model(), id, self.order().len()),
    {
        let ghost m = self.model();
        let ghost n = self.entities@.len();
        let mut cursor: Option<u64> = match self.index_of(id) {
            Some(i) => self.entities[i].parent,
            None => None,
        };
        let mut depth: usize = 0;
        proof {
            assert(ancestor(m, id, 0) == Some(id));
            assert(cursor == ancestor(m, id, 1));
        }
        loop
            invariant
                self.wf(),
                m == self.model(),
                n == self.entities@.len(),
                n == self.order().len(),
                depth <= n,
                cursor == ancestor(m, id, (depth + 1) as nat),
                forall|d: nat| 1 <= d < depth + 1 ==> (#[trigger] ancestor(m, id, d) matches Some(a) && shows_descendants(m, a)),
            decreases n - depth,
        {
            match cursor {
                None => {
                    proof {
                        assert(ancestor(m, id, (depth + 1) as nat) is None);
                    }
                    return true;
                },
                Some(p) => {
                    let pi = match self.index_of(p) {
                        Some(pi) => pi,
                        None => {
                            proof {
                                lemma_not_allowed_at(m, id, n as nat, (depth + 1) as nat);
                            }
                            return false;
                        },
                    };
                    let parent = &self.entities[pi];
                    proof {
                        Self::lemma_entry(*self, pi as int);
                    }
                    if parent.lifecycle != SceneLifecycle::Active || !parent.visibility.all_visible() {
                        proof {
                            lemma_not_allowed_at(m, id, n as nat, (depth + 1) as nat);
                        }
                        return false;
                    }
                    proof {
                        assert(ancestor(m, id, (depth + 2) as nat) == parent_in(m, p));
                    }
                    cursor = parent.parent;
                    if depth >= self.entities.len() {
                        proof {
                            lemma_not_allowed_long(m, id, n as nat);
                        }
                        return false;
                    }
                    depth = depth + 1;
                },
            }
        }
    }

    /// The render slots of the drawable entities that the hierarchy lets
    /// through, in the order of adding.
    pub fn active_render_slots(&self) -> (r: Vec<usize>)
        requires
            self.wf(),
        ensures
            r@ == render_slots(self.model(), self.order(), self.order().len()),
    {
        let mut out: Vec<usize> = Vec::new();
        let mut i: usize = 0;
        while i < self.entities.len()
            invariant
                self.wf(),
                i <= self.entities@.len(),
                out@ == render_slots(self.model(), self.order().take(i as int), self.order().len()),
            decreases self.entities@.len() - i,
        {
            proof {
                Self::lemma_entry(*self, i as int);
                assert(self.order().take(i + 1).drop_last() =~= self.order().take(i as int));
                assert(self.order().take(i + 1).last() == self.order()[i as int]);
                assert(self.order()[i as int] == self.entities@[i as int].id);
            }
            let e = &self.entities[i];
            if e.is_renderable() && e.visibility.all_visible() && self.hierarchy_allows(e.id) {
                match e.render_slot {
                    Some(slot) => out.push(slot),
                    None => {},
                }
            }
            i = i + 1;
        }
        proof {
            assert(self.order().take(self.entities@.len() as int) =~= self.order());
        }
        out
    }

    /// How many entities are not removed.
    pub fn entity_count(&self) -> (n: usize)
        requires
            self.wf(),
        ensures
            n == live_count(self.model(), self.order()),
    {
        let mut count: usize = 0;
        let mut i: usize = 0;
        while i < self.entities.len()
            invariant
                self.wf(),
                i <= self.entities@.len(),
                count == live_count(self.model(), self.order().take(i as int)),
                count <= i,
            decreases self.entities@.len() - i,
        {
            proof {
                Self::lemma_entry(*self, i as int);
                assert(self.order().take(i + 1).drop_last() =~= self.order().take(i as int));
                assert(self.order().take(i + 1).last() == self.order()[i as int]);
                assert(self.order()[i as int] == self.entities@[i as int].id);
            }
            if self.entities[i].lifecycle != SceneLifecycle::Removed {
                count = count + 1;
            }
            i = i + 1;
        }
        proof {
            assert(self.order().take(self.entities@.len() as int) =~= self.order());
        }
        count
    }

    /// How many entities that are not removed have `mobility`.
    fn count_with_mobility(&self, mobility: SceneMobility) -> (n: usize)
        requires
            self.wf(),
        ensures
            n == mobility_count(self.model(), self.order(), mobility),
    {
        let mut count: usize = 0;
        let mut i: usize = 0;
        while i < self.entities.len()
            invariant
                self.wf(),
                i <= self.entities@.len(),
                count == mobility_count(self.model(), self.order().take(i as int), mobility),
                count <= i,
            decreases self.entities@.len() - i,
        {
            proof {
                Self::lemma_entry(*self, i as int);
                assert(self.order().take(i + 1).drop_last() =~= self.order().take(i as int));
                assert(self.order().take(i + 1).last() == self.order()[i as int]);
                assert(self.order()[i as int] == self.entities@[i as int].id);
            }
            if self.entities[i].lifecycle != SceneLifecycle::Removed && self.entities[i].mobility == mobility {
                count = count + 1;
            }
            i = i + 1;
        }
        proof {
            assert(self.order().take(self.entities@.len() as int) =~= self.order());
        }
        count
    }

    /// How many static entities are not removed.
    pub fn static_count(&self) -> (n: usize)
        requires
            self.wf(),
        ensures
            n == mobility_count(self.model(), self.order(), SceneMobility::Static),
    {
        self.count_with_mobility(SceneMobility::Static)
    }

    /// How many dynamic entities are not removed.
    pub fn dynamic_count(&self) -> (n: usize)
        requires
            self.wf(),
        ensures
            n == mobility_count(self.model(), self.order(), SceneMobility::Dynamic),
    {
        self.count_with_mobility(SceneMobility::Dynamic)
    }
}

/// Every entity that is not removed is either static or dynamic.
pub proof fn lemma_live_count_splits(m: Map<u64, EntityView>, ids: Seq<u64>)
    ensures
        live_count(m, ids) == mobility_count(m, ids, SceneMobility::Static) + mobility_count(
            m,
            ids,
            SceneMobility::Dynamic,
        ),
    decreases ids.len(),
{
    if ids.len() > 0 {
        lemma_live_count_splits(m, ids.drop_last());
    }
}

/// A walk up that meets an ancestor letting nothing through, at step `j`
/// before it ends, lets nothing through.
proof fn lemma_not_allowed_at(m: Map<u64, EntityView>, id: u64, n: nat, j: nat)
    requires
        1 <= j,
        ancestor(m, id, j) is Some,
        !shows_descendants(m, ancestor(m, id, j).unwrap()),
    ensures
        !hierarchy_allows_spec(m, id, n),
{
    if hierarchy_allows_spec(m, id, n) {
        let k = choose|k: nat|
            1 <= k <= n + 1 && #[trigger] ancestor(m, id, k) is None && forall|d: nat|
                1 <= d < k ==> (#[trigger] ancestor(m, id, d) matches Some(a) && shows_descendants(m, a));
        if k <= j {
            lemma_ancestor_none(m, id, k, j);
        } else {
            assert(ancestor(m, id, j) matches Some(a) && shows_descendants(m, a));
        }
    }
}

/// A walk up that still finds an ancestor at step `n + 1` lets nothing
/// through.
proof fn lemma_not_allowed_long(m: Map<u64, EntityView>, id: u64, n: nat)
    requires
        ancestor(m, id, n + 1) is Some,
    ensures
        !hierarchy_allows_spec(m, id, n),
{
    if hierarchy_allows_spec(m, id, n) {
        let k = choose|k: nat|
            1 <= k <= n + 1 && #[trigger] ancestor(m, id, k) is None && forall|d: nat|
                1 <= d < k ==> (#[trigger] ancestor(m, id, d) matches Some(a) && shows_descendants(m, a));
        lemma_ancestor_none(m, id, k, n + 1);
    }
}

/// On an acyclic hierarchy, the ancestors let an entity through exactly when
/// each of them lets its descendants show.
pub proof fn lemma_hierarchy_allows_acyclic(w: SceneLedger, id: u64)
    requires
        w.wf(),
        acyclic(w.model()),
    ensures
        hierarchy_allows_spec(w.model(), id, w.order().len()) <==> forall|d: nat|
            1 <= d && #[trigger] ancestor(w.model(), id, d) is Some ==> shows_descendants(w.model(), ancestor(w.model(), id, d).unwrap()),
{
    let m = w.model();
    let n = w.order().len();
    assert forall|x: u64| #[trigger] m.contains_key(x) implies w.order().contains(x) by {
        w.lemma_model_in_order(x);
    }
    lemma_walk_bounded(m, w.order(), id);
    if hierarchy_allows_spec(m, id, n) {
        let k = choose|k: nat|
            1 <= k <= n + 1 && #[trigger] ancestor(m, id, k) is None && forall|d: nat|
                1 <= d < k ==> (#[trigger] ancestor(m, id, d) matches Some(a) && shows_descendants(m, a));
        assert forall|d: nat| 1 <= d && #[trigger] ancestor(m, id, d) is Some implies shows_descendants(m, ancestor(m, id, d).unwrap()) by {
            if d >= k {
                lemma_ancestor_none(m, id, k, d);
            }
        }
    }
    if forall|d: nat| 1 <= d && #[trigger] ancestor(m, id, d) is Some ==> shows_descendants(m, ancestor(m, id, d).unwrap()) {
        let k = lemma_first_end(m, id, n + 1);
        assert forall|d: nat| 1 <= d < k implies (#[trigger] ancestor(m, id, d) matches Some(a) && shows_descendants(m, a)) by {
            assert(ancestor(m, id, d) is Some);
        }
    }
}

/// A walk up that has ended by step `j` ended at a first step `k`, every
/// step before which found an ancestor.
proof fn lemma_first_end(m: Map<u64, EntityView>, id: u64, j: nat) -> (k: nat)
    requires
        1 <= j,
        ancestor(m, id, j) is None,
    ensures
        1 <= k <= j,
        ancestor(m, id, k) is None,
        forall|d: nat| 1 <= d < k ==> #[trigger] ancestor(m, id, d) is Some,
    decreases j,
{
    if j == 1 {
        1
    } else if ancestor(m, id, (j - 1) as nat) is None {
        lemma_first_end(m, id, (j - 1) as nat)
    } else {
        assert forall|d: nat| 1 <= d < j implies #[trigger] ancestor(m, id, d) is Some by {
            if ancestor(m, id, d) is None {
                lemma_ancestor_none(m, id, d, (j - 1) as nat);
            }
        }
        j
    }
}

} // verus!
