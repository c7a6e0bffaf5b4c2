//! The entity graph of a STEP file: its instances by id, converted.

use vstd::prelude::*;
use std::collections::HashMap;
use crate::formats::step::entities::{
    convert_entity, converted, ContextDependentShapeRepresentation, Coords,
    ItemDefinedTransformation, NextAssemblyUsageOccurrence,
    RepresentationRelationshipWithTransformation, StepEntity,
};
use crate::formats::step::p21::EntityInstance;
use crate::text::str_eq;
use vstd::std_specs::iter::IteratorSpec;

verus! {

broadcast use vstd::std_specs::hash::group_hash_axioms;

/// The position of the last instance with the given id, or -1.
pub open spec fn last_with_id(s: Seq<EntityInstance>, id: u64) -> int
    decreases s.len(),
{
    if s.len() == 0 {
        -1
    } else if s.last().id == id {
        s.len() - 1
    } else {
        last_with_id(s.drop_last(), id)
    }
}

/// The last instance with an id lies within the sequence and has that id.
pub proof fn lemma_last_with_id(s: Seq<EntityInstance>, id: u64)
    ensures
        -1 <= last_with_id(s, id) < s.len(),
        last_with_id(s, id) >= 0 ==> s[last_with_id(s, id)].id == id,
        last_with_id(s, id) < 0 ==> forall|k: int| 0 <= k < s.len() ==> s[k].id != id,
    decreases s.len(),
{
    if s.len() > 0 {
        lemma_last_with_id(s.drop_last(), id);
        if s.last().id != id {
            assert forall|k: int| 0 <= k < s.len() - 1 implies s[k] == s.drop_last()[k] by {}
        }
    }
}

/// Whether `m` maps each id to the conversion of the last instance with
/// that id, and holds no other ids.
pub open spec fn entity_map_of(m: Map<u64, StepEntity>, s: Seq<EntityInstance>) -> bool {
    &&& forall|id: u64| #[trigger] m.contains_key(id) <==> last_with_id(s, id) >= 0
    &&& forall|id: u64|
        #[trigger] m.contains_key(id) ==> converted(m[id], s[last_with_id(s, id)].model())
}

/// The converted entities of the instances, by id; a later instance with
/// the same id replaces an earlier one.
pub fn build_entity_map(instances: &[EntityInstance]) -> (r: HashMap<u64, StepEntity>)
    ensures
        entity_map_of(r@, instances@),
{
    let mut m: HashMap<u64, StepEntity> = HashMap::new();
    let mut i: usize = 0;
    while i < instances.len()
        invariant
            i <= instances@.len(),
            entity_map_of(m@, instances@.take(i as int)),
        decreases instances@.len() - i,
    {
        let inst = &instances[i];
        let e = convert_entity(inst);
        m.insert(inst.id, e);
        proof {
            let t = instances@.take(i as int + 1);
            assert(t.drop_last() =~= instances@.take(i as int));
            assert(t.last() == instances@[i as int]);
            assert forall|id: u64| #[trigger] m@.contains_key(id) <==> last_with_id(t, id) >= 0 by {}
            assert forall|id: u64| #[trigger] m@.contains_key(id) implies converted(
                m@[id],
                t[last_with_id(t, id)].model(),
            ) by {
                if id != inst.id {
                    lemma_last_with_id(instances@.take(i as int), id);
                    assert(t[last_with_id(t, id)] == instances@.take(i as int)[last_with_id(
                        instances@.take(i as int),
                        id,
                    )]);
                }
            }
        }
        i += 1;
    }
    proof {
        assert(instances@.take(instances@.len() as int) =~= instances@);
    }
    m
}

/// Whether an entity is a solid (manifold or faceted B-rep).
pub open spec fn is_solid(e: StepEntity) -> bool {
    e is ManifoldSolidBrep || e is FacetedBrep
}

/// Whether an entity is a shell (closed or open).
/// Whether an entity is an assembly usage occurrence.
pub open spec fn is_assembly_occurrence(e: StepEntity) -> bool {
    e is NextAssemblyUsageOccurrence
}

/// Whether `n` is one of the assembly usage occurrences of `m`.
pub open spec fn occurs_in(m: Map<u64, StepEntity>, n: &NextAssemblyUsageOccurrence) -> bool {
    exists|id: u64| m.contains_key(id) && #[trigger] m[id] == StepEntity::NextAssemblyUsageOccurrence(*n)
}

/// Whether every assembly occurrence, transformed representation
/// relationship and context-dependent shape representation in `m` carries
/// the id it is stored under, as in the map built from a file.
pub open spec fn links_keyed(m: Map<u64, StepEntity>) -> bool {
    forall|id: u64|
        #[trigger] m.contains_key(id) ==> match m[id] {
            StepEntity::NextAssemblyUsageOccurrence(x) => x.id == id,
            StepEntity::RepresentationRelationshipWithTransformation(x) => x.id == id,
            StepEntity::ContextDependentShapeRepresentation(x) => x.id == id,
            _ => true,
        }
}

/// Whether an entity is a representation relationship with a transformation.
pub open spec fn is_transform_relationship(e: StepEntity) -> bool {
    e is RepresentationRelationshipWithTransformation
}

/// Whether `n` is one of the representation relationships with a transformation of `m`.
pub open spec fn relationship_in(m: Map<u64, StepEntity>, n: &RepresentationRelationshipWithTransformation) -> bool {
    exists|id: u64| m.contains_key(id) && #[trigger] m[id] == StepEntity::RepresentationRelationshipWithTransformation(*n)
}

/// Whether an entity is a context-dependent shape representation.
pub open spec fn is_context_dependent(e: StepEntity) -> bool {
    e is ContextDependentShapeRepresentation
}

/// Whether `n` is one of the context-dependent shape representations of `m`.
pub open spec fn context_dependent_in(m: Map<u64, StepEntity>, n: &ContextDependentShapeRepresentation) -> bool {
    exists|id: u64| m.contains_key(id) && #[trigger] m[id] == StepEntity::ContextDependentShapeRepresentation(*n)
}

pub open spec fn is_shell(e: StepEntity) -> bool {
    e is ClosedShell || e is OpenShell
}

/// Whether an entity is a shape representation of one of the kinds that
/// hold geometry.
pub open spec fn is_shape_representation(e: StepEntity) -> bool {
    e is ShapeRepresentation || e is AdvancedBrepShapeRepresentation
        || e is GeometricallyBoundedSurfaceShapeRepresentation || e is FacetedBrepShapeRepresentation
}

/// The converted entities of a STEP file, and its raw instances, by id.
pub struct EntityGraph {
    /// Converted entities.
    pub entities: HashMap<u64, StepEntity>,
    /// Raw instances, the last one of each id.
    pub raw: HashMap<u64, EntityInstance>,
}

impl EntityGraph {
    /// Build an entity graph from the raw instances; where several share an
    /// id, the last one counts.
    pub fn new(instances: Vec<EntityInstance>) -> (r: Self)
        ensures
            entity_map_of(r.entities@, instances@),
            links_keyed(r.entities@),
            forall|id: u64| #[trigger] r.raw@.contains_key(id) <==> last_with_id(instances@, id) >= 0,
            forall|id: u64|
                #[trigger] r.raw@.contains_key(id) ==> r.raw@[id].model()
                    == instances@[last_with_id(instances@, id)].model(),
    {
        let entities = build_entity_map(&instances);
        let ghost all = instances@;
        let mut rest = instances;
        let mut raw: HashMap<u64, EntityInstance> = HashMap::new();
        proof {
            assert forall|id: u64| !(last_with_id(all, id) >= rest@.len()) by {
                lemma_last_with_id(all, id);
            }
            assert(rest@ =~= all.take(rest@.len() as int));
        }
        while rest.len() > 0
            invariant
                rest@ == all.take(rest@.len() as int),
                rest@.len() <= all.len(),
                forall|id: u64|
                    #[trigger] raw@.contains_key(id) <==> (last_with_id(all, id) >= rest@.len()),
                forall|id: u64|
                    #[trigger] raw@.contains_key(id) ==> raw@[id].model() == all[last_with_id(
                        all,
                        id,
                    )].model(),
            decreases rest@.len(),
        {
            let ghost n = rest@.len() as int;
            let inst = rest.pop().unwrap();
            proof {
                assert(inst == all[n - 1]);
                assert(rest@ =~= all.take(n - 1));
            }
            if !raw.contains_key(&inst.id) {
                proof {
                    lemma_last_with_id_suffix(all, inst.id, n - 1);
                }
                raw.insert(inst.id, inst);
            } else {
                proof {
                    assert(last_with_id(all, inst.id) >= n);
                }
            }
            proof {
                assert forall|id: u64| #[trigger]
                    raw@.contains_key(id) <== (last_with_id(all, id) >= n - 1) by {
                    if last_with_id(all, id) == n - 1 {
                        lemma_last_with_id(all, id);
                    }
                }
                assert forall|id: u64| #[trigger]
                    raw@.contains_key(id) ==> (last_with_id(all, id) >= n - 1) by {}
            }
        }
        proof {
            assert forall|id: u64| #[trigger] raw@.contains_key(id) <==> last_with_id(all, id) >= 0 by {
                lemma_last_with_id(all, id);
            }
            assert forall|id: u64| #[trigger] entities@.contains_key(id) implies match entities@[id] {
                StepEntity::NextAssemblyUsageOccurrence(x) => x.id == id,
                StepEntity::RepresentationRelationshipWithTransformation(x) => x.id == id,
                StepEntity::ContextDependentShapeRepresentation(x) => x.id == id,
                _ => true,
            } by {
                lemma_last_with_id(all, id);
                assert(converted(entities@[id], all[last_with_id(all, id)].model()));
                assert(all[last_with_id(all, id)].model().id == id);
            }
        }
        EntityGraph { entities, raw }
    }

    /// The entity with the given id.
    pub fn get(&self, id: u64) -> (r: Option<&StepEntity>)
        ensures
            self.entities@.contains_key(id) ==> r == Some(&self.entities@[id]),
            !self.entities@.contains_key(id) ==> r is None,
    {
        self.entities.get(&id)
    }

    /// The coordinates of the cartesian point with the given id.
    pub fn get_point(&self, id: u64) -> (r: Option<Coords>)
        ensures
            r is Some <==> self.entities@.contains_key(id)
                && self.entities@[id] is CartesianPoint,
            r matches Some(c) ==> (self.entities@[id] matches StepEntity::CartesianPoint(p)
                && c.model() == p.coords.model()),
    {
        match self.get(id) {
            Some(StepEntity::CartesianPoint(p)) => Some(p.coords.duplicate()),
            _ => None,
        }
    }

    /// The coordinates of the point of the vertex with the given id.
    pub fn get_vertex_coords(&self, id: u64) -> (r: Option<Coords>)
        ensures
            r is Some <==> self.entities@.contains_key(id) && (self.entities@[id] matches StepEntity::VertexPoint(v)
                && self.entities@.contains_key(v.point) && self.entities@[v.point] is CartesianPoint),
            r matches Some(c) ==> (self.entities@[id] matches StepEntity::VertexPoint(v)
                && self.entities@[v.point] matches StepEntity::CartesianPoint(p) && c.model() == p.coords.model()),
    {
        match self.get(id) {
            Some(StepEntity::VertexPoint(v)) => self.get_point(v.point),
            _ => None,
        }
    }

    /// The item-defined transformation with the given id.
    pub fn get_item_defined_transformation(&self, id: u64) -> (r: Option<&ItemDefinedTransformation>)
        ensures
            r is Some <==> self.entities@.contains_key(id)
                && self.entities@[id] is ItemDefinedTransformation,
            r matches Some(t) ==> self.entities@[id] == StepEntity::ItemDefinedTransformation(*t),
    {
        match self.get(id) {
            Some(StepEntity::ItemDefinedTransformation(t)) => Some(t),
            _ => None,
        }
    }

    /// The direction ratios of the direction with the given id, as written
    /// (not normalised).
    pub fn get_direction(&self, id: u64) -> (r: Option<Coords>)
        ensures
            r is Some <==> self.entities@.contains_key(id) && self.entities@[id] is Direction,
            r matches Some(c) ==> (self.entities@[id] matches StepEntity::Direction(d)
                && c.model() == d.ratios.model()),
    {
        match self.get(id) {
            Some(StepEntity::Direction(d)) => Some(d.ratios.duplicate()),
            _ => None,
        }
    }

    /// The ids of all raw instances of the given type, each once, in no
    /// particular order.
    pub fn find_by_type(&self, type_label: &str) -> (r: Vec<u64>)
        ensures
            r@.no_duplicates(),
            forall|id: u64|
                #![trigger r@.contains(id)]
                #![trigger self.raw@[id]]
                r@.contains(id) <==> (self.raw@.contains_key(id) && self.raw@[id].type_label@
                    == type_label@),
    {
        let mut out: Vec<u64> = Vec::new();
        for kv in it: self.raw.iter()
            invariant
                it.seq() == vstd::std_specs::hash::spec_hash_map_iter(&self.raw).remaining(),
                it.seq().no_duplicates(),
                out@.no_duplicates(),
                forall|id: u64|
                    out@.contains(id) <==> exists|k: int|
                        0 <= k < it.index() && *it.seq()[k].0 == id && (*it.seq()[k].1).type_label@
                            == type_label@,
        {
            let (id, inst) = kv;
            let ghost j = it.index();
            proof {
                assert(kv == it.seq()[j]);
                lemma_entry_keys(&self.raw, it.seq(), j);
            }
            let ghost before = out@;
            if str_eq(inst.type_label.as_str(), type_label) {
                proof {
                    assert(!before.contains(*id)) by {
                        if before.contains(*id) {
                            let k = choose|k: int| 0 <= k < j && *it.seq()[k].0 == *id;
                            assert(*it.seq()[k].0 != *it.seq()[j].0);
                        }
                    }
                }
                out.push(*id);
                assert(out@ == before.push(*id));
            }
            proof {
                let sq = it.seq();
                assert forall|x: u64|
                    out@.contains(x) <==> exists|k: int|
                        0 <= k < j + 1 && *sq[k].0 == x && (*sq[k].1).type_label@ == type_label@ by {
                    if out@.contains(x) && !before.contains(x) {
                        assert(*sq[j].0 == x && (*sq[j].1).type_label@ == type_label@);
                    }
                    if exists|k: int| 0 <= k < j + 1 && *sq[k].0 == x && (*sq[k].1).type_label@ == type_label@ {
                        let k = choose|k: int|
                            0 <= k < j + 1 && *sq[k].0 == x && (*sq[k].1).type_label@ == type_label@;
                        if k == j {
                            assert(out@[out@.len() - 1] == x);
                            assert(out@.contains(x));
                        } else {
                            assert(before.contains(x));
                            let i = choose|i: int| 0 <= i < before.len() && before[i] == x;
                            assert(out@[i] == x);
                            assert(out@.contains(x));
                        }
                    }
                }
            }
        }
        proof {
            lemma_entries_cover(&self.raw, vstd::std_specs::hash::spec_hash_map_iter(&self.raw).remaining());
        }
        out
    }

    /// The ids of all assembly usage occurrences, each once, in no
    /// particular order.
    fn assembly_occurrence_ids(&self) -> (r: Vec<u64>)
        ensures
            r@.no_duplicates(),
            forall|id: u64|
                #![trigger r@.contains(id)]
                #![trigger self.entities@[id]]
                r@.contains(id) <==> (self.entities@.contains_key(id) && is_assembly_occurrence(self.entities@[id])),
    {
        let mut out: Vec<u64> = Vec::new();
        for kv in it: self.entities.iter()
            invariant
                it.seq() == vstd::std_specs::hash::spec_hash_map_iter(&self.entities).remaining(),
                it.seq().no_duplicates(),
                out@.no_duplicates(),
                forall|id: u64|
                    out@.contains(id) <==> exists|k: int|
                        0 <= k < it.index() && *it.seq()[k].0 == id && is_assembly_occurrence(*it.seq()[k].1),
        {
            let (id, e) = kv;
            let ghost j = it.index();
            proof {
                assert(kv == it.seq()[j]);
                lemma_entry_keys(&self.entities, it.seq(), j);
            }
            let ghost before = out@;
            if matches!(e, StepEntity::NextAssemblyUsageOccurrence(_)) {
                proof {
                    assert(!before.contains(*id)) by {
                        if before.contains(*id) {
                            let k = choose|k: int|
                                0 <= k < j && *it.seq()[k].0 == *id;
                            assert(*it.seq()[k].0 != *it.seq()[j].0);
                        }
                    }
                }
                out.push(*id);
                assert(out@ == before.push(*id));
            }
            proof {
                let sq = it.seq();
                assert forall|x: u64|
                    out@.contains(x) <==> exists|k: int|
                        0 <= k < j + 1 && *sq[k].0 == x && is_assembly_occurrence(*sq[k].1) by {
                    if out@.contains(x) && !before.contains(x) {
                        assert(*sq[j].0 == x && is_assembly_occurrence(*sq[j].1));
                    }
                    if exists|k: int| 0 <= k < j + 1 && *sq[k].0 == x && is_assembly_occurrence(*sq[k].1) {
                        let k = choose|k: int| 0 <= k < j + 1 && *sq[k].0 == x && is_assembly_occurrence(*sq[k].1);
                        if k == j {
                            assert(out@[out@.len() - 1] == x);
                            assert(out@.contains(x));
                        } else {
                            assert(before.contains(x));
                            let i = choose|i: int| 0 <= i < before.len() && before[i] == x;
                            assert(out@[i] == x);
                            assert(out@.contains(x));
                        }
                    }
                }
            }
        }
        proof {
            lemma_entries_cover(&self.entities, vstd::std_specs::hash::spec_hash_map_iter(&self.entities).remaining());
        }
        out
    }

    /// All assembly usage occurrences, one for each entity that is one, in
    /// no particular order.
    pub fn find_assembly_occurrences(&self) -> (r: Vec<&NextAssemblyUsageOccurrence>)
        ensures
            links_keyed(self.entities@) ==> r@.no_duplicates(),
            forall|k: int| 0 <= k < r@.len() ==> occurs_in(self.entities@, #[trigger] r@[k]),
            forall|id: u64|
                self.entities@.contains_key(id) && (#[trigger] self.entities@[id] is NextAssemblyUsageOccurrence)
                    ==> exists|k: int|
                    #![trigger r@[k]]
                    0 <= k < r@.len() && self.entities@[id] == StepEntity::NextAssemblyUsageOccurrence(
                        *r@[k],
                    ),
    {
        let ids = self.assembly_occurrence_ids();
        let mut out: Vec<&NextAssemblyUsageOccurrence> = Vec::new();
        let mut i: usize = 0;
        while i < ids.len()
            invariant
                i <= ids@.len(),
                out@.len() == i,
                forall|id: u64|
                    #![trigger ids@.contains(id)]
                    #![trigger self.entities@[id]]
                    ids@.contains(id) <==> (self.entities@.contains_key(id) && is_assembly_occurrence(
                        self.entities@[id],
                    )),
                forall|k: int|
                    #![trigger out@[k]]
                    0 <= k < i ==> self.entities@[ids@[k]] == StepEntity::NextAssemblyUsageOccurrence(*out@[k]),
            decreases ids@.len() - i,
        {
            let id = ids[i];
            assert(ids@.contains(id));
            match self.get(id) {
                Some(StepEntity::NextAssemblyUsageOccurrence(n)) => {
                    let ghost before = out@;
                    out.push(n);
                    proof {
                        assert forall|k: int| #![trigger out@[k]] 0 <= k < i + 1 implies self.entities@[ids@[k]]
                            == StepEntity::NextAssemblyUsageOccurrence(*out@[k]) by {
                            if k < i {
                                assert(out@[k] == before[k]);
                            }
                        }
                    }
                },
                _ => {
                    assert(false);
                },
            }
            i += 1;
        }
        proof {
            assert forall|k: int| 0 <= k < out@.len() implies occurs_in(self.entities@, #[trigger] out@[k]) by {
                assert(ids@.contains(ids@[k]));
                assert(self.entities@.contains_key(ids@[k]));
                assert(self.entities@[ids@[k]] == StepEntity::NextAssemblyUsageOccurrence(*out@[k]));
            }
            assert forall|id: u64|
                self.entities@.contains_key(id) && (#[trigger] self.entities@[id] is NextAssemblyUsageOccurrence)
                    implies exists|k: int|
                    #![trigger out@[k]]
                    0 <= k < out@.len() && self.entities@[id] == StepEntity::NextAssemblyUsageOccurrence(
                        *out@[k],
                    ) by {
                assert(ids@.contains(id));
                let k = choose|k: int| 0 <= k < ids@.len() && ids@[k] == id;
                assert(self.entities@[ids@[k]] == StepEntity::NextAssemblyUsageOccurrence(*out@[k]));
            }
        }
        proof {
            if links_keyed(self.entities@) {
                assert forall|x: int, y: int| 0 <= x < y < out@.len() implies out@[x] != out@[y] by {
                    assert(ids@.contains(ids@[x]));
                    assert(ids@.contains(ids@[y]));
                    assert(self.entities@.contains_key(ids@[x]));
                    assert(self.entities@.contains_key(ids@[y]));
                    assert(self.entities@[ids@[x]] == StepEntity::NextAssemblyUsageOccurrence(*out@[x]));
                    assert(self.entities@[ids@[y]] == StepEntity::NextAssemblyUsageOccurrence(*out@[y]));
                }
            }
        }
        out
    }

    /// The ids of all representation relationships with a transformation, each once, in no
    /// particular order.
    fn transform_relationship_ids(&self) -> (r: Vec<u64>)
        ensures
            r@.no_duplicates(),
            forall|id: u64|
                #![trigger r@.contains(id)]
                #![trigger self.entities@[id]]
                r@.contains(id) <==> (self.entities@.contains_key(id) && is_transform_relationship(self.entities@[id])),
    {
        let mut out: Vec<u64> = Vec::new();
        for kv in it: self.entities.iter()
            invariant
                it.seq() == vstd::std_specs::hash::spec_hash_map_iter(&self.entities).remaining(),
                it.seq().no_duplicates(),
                out@.no_duplicates(),
                forall|id: u64|
                    out@.contains(id) <==> exists|k: int|
                        0 <= k < it.index() && *it.seq()[k].0 == id && is_transform_relationship(*it.seq()[k].1),
        {
            let (id, e) = kv;
            let ghost j = it.index();
            proof {
                assert(kv == it.seq()[j]);
                lemma_entry_keys(&self.entities, it.seq(), j);
            }
            let ghost before = out@;
            if matches!(e, StepEntity::RepresentationRelationshipWithTransformation(_)) {
                proof {
                    assert(!before.contains(*id)) by {
                        if before.contains(*id) {
                            let k = choose|k: int|
                                0 <= k < j && *it.seq()[k].0 == *id;
                            assert(*it.seq()[k].0 != *it.seq()[j].0);
                        }
                    }
                }
                out.push(*id);
                assert(out@ == before.push(*id));
            }
            proof {
                let sq = it.seq();
                assert forall|x: u64|
                    out@.contains(x) <==> exists|k: int|
                        0 <= k < j + 1 && *sq[k].0 == x && is_transform_relationship(*sq[k].1) by {
                    if out@.contains(x) && !before.contains(x) {
                        assert(*sq[j].0 == x && is_transform_relationship(*sq[j].1));
                    }
                    if exists|k: int| 0 <= k < j + 1 && *sq[k].0 == x && is_transform_relationship(*sq[k].1) {
                        let k = choose|k: int| 0 <= k < j + 1 && *sq[k].0 == x && is_transform_relationship(*sq[k].1);
                        if k == j {
                            assert(out@[out@.len() - 1] == x);
                            assert(out@.contains(x));
                        } else {
                            assert(before.contains(x));
                            let i = choose|i: int| 0 <= i < before.len() && before[i] == x;
                            assert(out@[i] == x);
                            assert(out@.contains(x));
                        }
                    }
                }
            }
        }
        proof {
            lemma_entries_cover(&self.entities, vstd::std_specs::hash::spec_hash_map_iter(&self.entities).remaining());
        }
        out
    }

    /// All representation relationships with a transformation, one for each entity that is one, in
    /// no particular order.
    pub fn find_representation_relationships_with_transform(&self) -> (r: Vec<&RepresentationRelationshipWithTransformation>)
        ensures
            links_keyed(self.entities@) ==> r@.no_duplicates(),
            forall|k: int| 0 <= k < r@.len() ==> relationship_in(self.entities@, #[trigger] r@[k]),
            forall|id: u64|
                self.entities@.contains_key(id) && (#[trigger] self.entities@[id] is RepresentationRelationshipWithTransformation)
                    ==> exists|k: int|
                    #![trigger r@[k]]
                    0 <= k < r@.len() && self.entities@[id] == StepEntity::RepresentationRelationshipWithTransformation(
                        *r@[k],
                    ),
    {
        let ids = self.transform_relationship_ids();
        let mut out: Vec<&RepresentationRelationshipWithTransformation> = Vec::new();
        let mut i: usize = 0;
        while i < ids.len()
            invariant
                i <= ids@.len(),
                out@.len() == i,
                forall|id: u64|
                    #![trigger ids@.contains(id)]
                    #![trigger self.entities@[id]]
                    ids@.contains(id) <==> (self.entities@.contains_key(id) && is_transform_relationship(
                        self.entities@[id],
                    )),
                forall|k: int|
                    #![trigger out@[k]]
                    0 <= k < i ==> self.entities@[ids@[k]] == StepEntity::RepresentationRelationshipWithTransformation(*out@[k]),
            decreases ids@.len() - i,
        {
            let id = ids[i];
            assert(ids@.contains(id));
            match self.get(id) {
                Some(StepEntity::RepresentationRelationshipWithTransformation(n)) => {
                    let ghost before = out@;
                    out.push(n);
                    proof {
                        assert forall|k: int| #![trigger out@[k]] 0 <= k < i + 1 implies self.entities@[ids@[k]]
                            == StepEntity::RepresentationRelationshipWithTransformation(*out@[k]) by {
                            if k < i {
                                assert(out@[k] == before[k]);
                            }
                        }
                    }
                },
                _ => {
                    assert(false);
                },
            }
            i += 1;
        }
        proof {
            assert forall|k: int| 0 <= k < out@.len() implies relationship_in(self.entities@, #[trigger] out@[k]) by {
                assert(ids@.contains(ids@[k]));
                assert(self.entities@.contains_key(ids@[k]));
                assert(self.entities@[ids@[k]] == StepEntity::RepresentationRelationshipWithTransformation(*out@[k]));
            }
            assert forall|id: u64|
                self.entities@.contains_key(id) && (#[trigger] self.entities@[id] is RepresentationRelationshipWithTransformation)
                    implies exists|k: int|
                    #![trigger out@[k]]
                    0 <= k < out@.len() && self.entities@[id] == StepEntity::RepresentationRelationshipWithTransformation(
                        *out@[k],
                    ) by {
                assert(ids@.contains(id));
                let k = choose|k: int| 0 <= k < ids@.len() && ids@[k] == id;
                assert(self.entities@[ids@[k]] == StepEntity::RepresentationRelationshipWithTransformation(*out@[k]));
            }
        }
        proof {
            if links_keyed(self.entities@) {
                assert forall|x: int, y: int| 0 <= x < y < out@.len() implies out@[x] != out@[y] by {
                    assert(ids@.contains(ids@[x]));
                    assert(ids@.contains(ids@[y]));
                    assert(self.entities@.contains_key(ids@[x]));
                    assert(self.entities@.contains_key(ids@[y]));
                    assert(self.entities@[ids@[x]] == StepEntity::RepresentationRelationshipWithTransformation(*out@[x]));
                    assert(self.entities@[ids@[y]] == StepEntity::RepresentationRelationshipWithTransformation(*out@[y]));
                }
            }
        }
        out
    }

    /// The ids of all context-dependent shape representations, each once, in no
    /// particular order.
    fn context_dependent_ids(&self) -> (r: Vec<u64>)
        ensures
            r@.no_duplicates(),
            forall|id: u64|
                #![trigger r@.contains(id)]
                #![trigger self.entities@[id]]
                r@.contains(id) <==> (self.entities@.contains_key(id) && is_context_dependent(self.entities@[id])),
    {
        let mut out: Vec<u64> = Vec::new();
        for kv in it: self.entities.iter()
            invariant
                it.seq() == vstd::std_specs::hash::spec_hash_map_iter(&self.entities).remaining(),
                it.seq().no_duplicates(),
                out@.no_duplicates(),
                forall|id: u64|
                    out@.contains(id) <==> exists|k: int|
                        0 <= k < it.index() && *it.seq()[k].0 == id && is_context_dependent(*it.seq()[k].1),
        {
            let (id, e) = kv;
            let ghost j = it.index();
            proof {
                assert(kv == it.seq()[j]);
                lemma_entry_keys(&self.entities, it.seq(), j);
            }
            let ghost before = out@;
            if matches!(e, StepEntity::ContextDependentShapeRepresentation(_)) {
                proof {
                    assert(!before.contains(*id)) by {
                        if before.contains(*id) {
                            let k = choose|k: int|
                                0 <= k < j && *it.seq()[k].0 == *id;
                            assert(*it.seq()[k].0 != *it.seq()[j].0);
                        }
                    }
                }
                out.push(*id);
                assert(out@ == before.push(*id));
            }
            proof {
                let sq = it.seq();
                assert forall|x: u64|
                    out@.contains(x) <==> exists|k: int|
                        0 <= k < j + 1 && *sq[k].0 == x && is_context_dependent(*sq[k].1) by {
                    if out@.contains(x) && !before.contains(x) {
                        assert(*sq[j].0 == x && is_context_dependent(*sq[j].1));
                    }
                    if exists|k: int| 0 <= k < j + 1 && *sq[k].0 == x && is_context_dependent(*sq[k].1) {
                        let k = choose|k: int| 0 <= k < j + 1 && *sq[k].0 == x && is_context_dependent(*sq[k].1);
                        if k == j {
                            assert(out@[out@.len() - 1] == x);
                            assert(out@.contains(x));
                        } else {
                            assert(before.contains(x));
                            let i = choose|i: int| 0 <= i < before.len() && before[i] == x;
                            assert(out@[i] == x);
                            assert(out@.contains(x));
                        }
                    }
                }
            }
        }
        proof {
            lemma_entries_cover(&self.entities, vstd::std_specs::hash::spec_hash_map_iter(&self.entities).remaining());
        }
        out
    }

    /// All context-dependent shape representations, one for each entity that is one, in
    /// no particular order.
    pub fn find_context_dependent_shape_representations(&self) -> (r: Vec<&ContextDependentShapeRepresentation>)
        ensures
            links_keyed(self.entities@) ==> r@.no_duplicates(),
            forall|k: int| 0 <= k < r@.len() ==> context_dependent_in(self.entities@, #[trigger] r@[k]),
            forall|id: u64|
                self.entities@.contains_key(id) && (#[trigger] self.entities@[id] is ContextDependentShapeRepresentation)
                    ==> exists|k: int|
                    #![trigger r@[k]]
                    0 <= k < r@.len() && self.entities@[id] == StepEntity::ContextDependentShapeRepresentation(
                        *r@[k],
                    ),
    {
        let ids = self.context_dependent_ids();
        let mut out: Vec<&ContextDependentShapeRepresentation> = Vec::new();
        let mut i: usize = 0;
        while i < ids.len()
            invariant
                i <= ids@.len(),
                out@.len() == i,
                forall|id: u64|
                    #![trigger ids@.contains(id)]
                    #![trigger self.entities@[id]]
                    ids@.contains(id) <==> (self.entities@.contains_key(id) && is_context_dependent(
                        self.entities@[id],
                    )),
                forall|k: int|
                    #![trigger out@[k]]
                    0 <= k < i ==> self.entities@[ids@[k]] == StepEntity::ContextDependentShapeRepresentation(*out@[k]),
            decreases ids@.len() - i,
        {
            let id = ids[i];
            assert(ids@.contains(id));
            match self.get(id) {
                Some(StepEntity::ContextDependentShapeRepresentation(n)) => {
                    let ghost before = out@;
                    out.push(n);
                    proof {
                        assert forall|k: int| #![trigger out@[k]] 0 <= k < i + 1 implies self.entities@[ids@[k]]
                            == StepEntity::ContextDependentShapeRepresentation(*out@[k]) by {
                            if k < i {
                                assert(out@[k] == before[k]);
                            }
                        }
                    }
                },
                _ => {
                    assert(false);
                },
            }
            i += 1;
        }
        proof {
            assert forall|k: int| 0 <= k < out@.len() implies context_dependent_in(self.entities@, #[trigger] out@[k]) by {
                assert(ids@.contains(ids@[k]));
                assert(self.entities@.contains_key(ids@[k]));
                assert(self.entities@[ids@[k]] == StepEntity::ContextDependentShapeRepresentation(*out@[k]));
            }
            assert forall|id: u64|
                self.entities@.contains_key(id) && (#[trigger] self.entities@[id] is ContextDependentShapeRepresentation)
                    implies exists|k: int|
                    #![trigger out@[k]]
                    0 <= k < out@.len() && self.entities@[id] == StepEntity::ContextDependentShapeRepresentation(
                        *out@[k],
                    ) by {
                assert(ids@.contains(id));
                let k = choose|k: int| 0 <= k < ids@.len() && ids@[k] == id;
                assert(self.entities@[ids@[k]] == StepEntity::ContextDependentShapeRepresentation(*out@[k]));
            }
        }
        proof {
            if links_keyed(self.entities@) {
                assert forall|x: int, y: int| 0 <= x < y < out@.len() implies out@[x] != out@[y] by {
                    assert(ids@.contains(ids@[x]));
                    assert(ids@.contains(ids@[y]));
                    assert(self.entities@.contains_key(ids@[x]));
                    assert(self.entities@.contains_key(ids@[y]));
                    assert(self.entities@[ids@[x]] == StepEntity::ContextDependentShapeRepresentation(*out@[x]));
                    assert(self.entities@[ids@[y]] == StepEntity::ContextDependentShapeRepresentation(*out@[y]));
                }
            }
        }
        out
    }

    /// The ids of all solids, each once, in no particular order.
    pub fn find_solids(&self) -> (r: Vec<u64>)
        ensures
            r@.no_duplicates(),
            forall|id: u64|
                #![trigger r@.contains(id)]
                #![trigger self.entities@[id]]
                r@.contains(id) <==> (self.entities@.contains_key(id) && is_solid(self.entities@[id])),
    {
        let mut out: Vec<u64> = Vec::new();
        for kv in it: self.entities.iter()
            invariant
                it.seq() == vstd::std_specs::hash::spec_hash_map_iter(&self.entities).remaining(),
                it.seq().no_duplicates(),
                out@.no_duplicates(),
                forall|id: u64|
                    out@.contains(id) <==> exists|k: int|
                        0 <= k < it.index() && *it.seq()[k].0 == id && is_solid(*it.seq()[k].1),
        {
            let (id, e) = kv;
            let ghost j = it.index();
            proof {
                assert(kv == it.seq()[j]);
                lemma_entry_keys(&self.entities, it.seq(), j);
            }
            let ghost before = out@;
            if matches!(e, StepEntity::ManifoldSolidBrep(_)) || matches!(e, StepEntity::FacetedBrep(_)) {
                proof {
                    assert(!before.contains(*id)) by {
                        if before.contains(*id) {
                            let k = choose|k: int|
                                0 <= k < j && *it.seq()[k].0 == *id;
                            assert(*it.seq()[k].0 != *it.seq()[j].0);
                        }
                    }
                }
                out.push(*id);
                assert(out@ == before.push(*id));
            }
            proof {
                let sq = it.seq();
                assert forall|x: u64|
                    out@.contains(x) <==> exists|k: int|
                        0 <= k < j + 1 && *sq[k].0 == x && is_solid(*sq[k].1) by {
                    if out@.contains(x) && !before.contains(x) {
                        assert(*sq[j].0 == x && is_solid(*sq[j].1));
                    }
                    if exists|k: int| 0 <= k < j + 1 && *sq[k].0 == x && is_solid(*sq[k].1) {
                        let k = choose|k: int| 0 <= k < j + 1 && *sq[k].0 == x && is_solid(*sq[k].1);
                        if k == j {
                            assert(out@[out@.len() - 1] == x);
                            assert(out@.contains(x));
                        } else {
                            assert(before.contains(x));
                            let i = choose|i: int| 0 <= i < before.len() && before[i] == x;
                            assert(out@[i] == x);
                            assert(out@.contains(x));
                        }
                    }
                }
            }
        }
        proof {
            lemma_entries_cover(&self.entities, vstd::std_specs::hash::spec_hash_map_iter(&self.entities).remaining());
        }
        out
    }

    /// The ids of all shells, each once, in no particular order.
    pub fn find_shells(&self) -> (r: Vec<u64>)
        ensures
            r@.no_duplicates(),
            forall|id: u64|
                #![trigger r@.contains(id)]
                #![trigger self.entities@[id]]
                r@.contains(id) <==> (self.entities@.contains_key(id) && is_shell(self.entities@[id])),
    {
        let mut out: Vec<u64> = Vec::new();
        for kv in it: self.entities.iter()
            invariant
                it.seq() == vstd::std_specs::hash::spec_hash_map_iter(&self.entities).remaining(),
                it.seq().no_duplicates(),
                out@.no_duplicates(),
                forall|id: u64|
                    out@.contains(id) <==> exists|k: int|
                        0 <= k < it.index() && *it.seq()[k].0 == id && is_shell(*it.seq()[k].1),
        {
            let (id, e) = kv;
            let ghost j = it.index();
            proof {
                assert(kv == it.seq()[j]);
                lemma_entry_keys(&self.entities, it.seq(), j);
            }
            let ghost before = out@;
            if matches!(e, StepEntity::ClosedShell(_)) || matches!(e, StepEntity::OpenShell(_)) {
                proof {
                    assert(!before.contains(*id)) by {
                        if before.contains(*id) {
                            let k = choose|k: int|
                                0 <= k < j && *it.seq()[k].0 == *id;
                            assert(*it.seq()[k].0 != *it.seq()[j].0);
                        }
                    }
                }
                out.push(*id);
                assert(out@ == before.push(*id));
            }
            proof {
                let sq = it.seq();
                assert forall|x: u64|
                    out@.contains(x) <==> exists|k: int|
                        0 <= k < j + 1 && *sq[k].0 == x && is_shell(*sq[k].1) by {
                    if out@.contains(x) && !before.contains(x) {
                        assert(*sq[j].0 == x && is_shell(*sq[j].1));
                    }
                    if exists|k: int| 0 <= k < j + 1 && *sq[k].0 == x && is_shell(*sq[k].1) {
                        let k = choose|k: int| 0 <= k < j + 1 && *sq[k].0 == x && is_shell(*sq[k].1);
                        if k == j {
                            assert(out@[out@.len() - 1] == x);
                            assert(out@.contains(x));
                        } else {
                            assert(before.contains(x));
                            let i = choose|i: int| 0 <= i < before.len() && before[i] == x;
                            assert(out@[i] == x);
                            assert(out@.contains(x));
                        }
                    }
                }
            }
        }
        proof {
            lemma_entries_cover(&self.entities, vstd::std_specs::hash::spec_hash_map_iter(&self.entities).remaining());
        }
        out
    }

    /// The ids of all shape representations, each once, in no particular order.
    pub fn find_shape_representations(&self) -> (r: Vec<u64>)
        ensures
            r@.no_duplicates(),
            forall|id: u64|
                #![trigger r@.contains(id)]
                #![trigger self.entities@[id]]
                r@.contains(id) <==> (self.entities@.contains_key(id) && is_shape_representation(self.entities@[id])),
    {
        let mut out: Vec<u64> = Vec::new();
        for kv in it: self.entities.iter()
            invariant
                it.seq() == vstd::std_specs::hash::spec_hash_map_iter(&self.entities).remaining(),
                it.seq().no_duplicates(),
                out@.no_duplicates(),
                forall|id: u64|
                    out@.contains(id) <==> exists|k: int|
                        0 <= k < it.index() && *it.seq()[k].0 == id && is_shape_representation(*it.seq()[k].1),
        {
            let (id, e) = kv;
            let ghost j = it.index();
            proof {
                assert(kv == it.seq()[j]);
                lemma_entry_keys(&self.entities, it.seq(), j);
            }
            let ghost before = out@;
            if matches!(e, StepEntity::ShapeRepresentation(_)) || matches!(e, StepEntity::AdvancedBrepShapeRepresentation(_)) || matches!(e, StepEntity::GeometricallyBoundedSurfaceShapeRepresentation(_)) || matches!(e, StepEntity::FacetedBrepShapeRepresentation(_)) {
                proof {
                    assert(!before.contains(*id)) by {
                        if before.contains(*id) {
                            let k = choose|k: int|
                                0 <= k < j && *it.seq()[k].0 == *id;
                            assert(*it.seq()[k].0 != *it.seq()[j].0);
                        }
                    }
                }
                out.push(*id);
                assert(out@ == before.push(*id));
            }
            proof {
                let sq = it.seq();
                assert forall|x: u64|
                    out@.contains(x) <==> exists|k: int|
                        0 <= k < j + 1 && *sq[k].0 == x && is_shape_representation(*sq[k].1) by {
                    if out@.contains(x) && !before.contains(x) {
                        assert(*sq[j].0 == x && is_shape_representation(*sq[j].1));
                    }
                    if exists|k: int| 0 <= k < j + 1 && *sq[k].0 == x && is_shape_representation(*sq[k].1) {
                        let k = choose|k: int| 0 <= k < j + 1 && *sq[k].0 == x && is_shape_representation(*sq[k].1);
                        if k == j {
                            assert(out@[out@.len() - 1] == x);
                            assert(out@.contains(x));
                        } else {
                            assert(before.contains(x));
                            let i = choose|i: int| 0 <= i < before.len() && before[i] == x;
                            assert(out@[i] == x);
                            assert(out@.contains(x));
                        }
                    }
                }
            }
        }
        proof {
            lemma_entries_cover(&self.entities, vstd::std_specs::hash::spec_hash_map_iter(&self.entities).remaining());
        }
        out
    }
}

/// The entries of a map's iterator: each lies in the map, and two at
/// different positions have different keys.
pub proof fn lemma_entry_keys<V>(m: &HashMap<u64, V>, s: Seq<(&u64, &V)>, j: int)
    requires
        s == vstd::std_specs::hash::spec_hash_map_iter(m).remaining(),
        s.no_duplicates(),
    ensures
        forall|k: int| 0 <= k < s.len() ==> m@.contains_key(*s[k].0) && m@[*s[k].0] == *s[k].1,
        forall|k: int| 0 <= k < s.len() && k != j && 0 <= j < s.len() ==> *s[k].0 != *s[j].0,
{
    assert forall|k: int| 0 <= k < s.len() implies m@.contains_key(*s[k].0) && m@[*s[k].0]
        == *s[k].1 by {
        assert(m@.contains_key(*s[k].0));
    }
    assert forall|k: int| 0 <= k < s.len() && k != j && 0 <= j < s.len() implies *s[k].0
        != *s[j].0 by {
        assert(m@.contains_key(*s[k].0));
        assert(m@.contains_key(*s[j].0));
        if *s[k].0 == *s[j].0 {
            assert(s[k] == s[j]);
        }
    }
}

/// Every key of a map is yielded by its iterator.
pub proof fn lemma_entries_cover<V>(m: &HashMap<u64, V>, s: Seq<(&u64, &V)>)
    requires
        s == vstd::std_specs::hash::spec_hash_map_iter(m).remaining(),
    ensures
        forall|id: u64| #[trigger] m@.contains_key(id) ==> exists|k: int|
            0 <= k < s.len() && *s[k].0 == id && *s[k].1 == m@[id],
        forall|k: int| 0 <= k < s.len() ==> m@.contains_key(*s[k].0) && m@[*s[k].0] == *s[k].1,
{
    assert forall|id: u64| #[trigger] m@.contains_key(id) implies exists|k: int|
        0 <= k < s.len() && *s[k].0 == id && *s[k].1 == m@[id] by {
        assert(s.contains((&id, &m@[id])));
    }
    assert forall|k: int| 0 <= k < s.len() implies m@.contains_key(*s[k].0) && m@[*s[k].0]
        == *s[k].1 by {
        assert(m@.contains_key(*s[k].0));
    }
}

/// If the last instance with `id` is at `k` or later and `k` holds `id`,
/// it is at `k` exactly when no later instance has `id`.
pub proof fn lemma_last_with_id_suffix(s: Seq<EntityInstance>, id: u64, k: int)
    requires
        0 <= k < s.len(),
        s[k].id == id,
        !(last_with_id(s, id) > k),
    ensures
        last_with_id(s, id) == k,
    decreases s.len(),
{
    lemma_last_with_id(s, id);
    if s.len() - 1 > k {
        assert(s.last().id != id || s.len() - 1 == last_with_id(s, id));
        lemma_last_with_id_suffix(s.drop_last(), id, k);
    }
}

} // verus!
