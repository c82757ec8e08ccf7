//! Which entities a frustum can see.

use vstd::prelude::*;
use crate::frustum::{planes_contain, planes_exclude, Frustum};
use crate::geometry::{
    lemma_aabb_outside_sound,
    lemma_sphere_outside_sound,
    BoundingVolume,
    Vector3,
    Plane,
};

verus! {

/// An entity that may be drawn: its identity, the volume that bounds it in
/// the frame of the frustum it is tested against, and whether it casts
/// shadows.
#[derive(Clone, Copy, Debug, PartialEq, Eq, Structural)]
pub struct Candidate {
    pub entity: u64,
    pub volume: BoundingVolume,
    pub shadow_caster: bool,
}

/// What a frustum is culled for.
#[derive(Clone, Copy, Debug, PartialEq, Eq, Structural)]
pub enum Pass {
    /// The view of a camera: every entity counts.
    Camera,
    /// The shadow map of a light: only shadow casters count.
    Shadow,
}

/// Whether a candidate is seen: it counts for the pass, and no single plane
/// has its volume wholly outside.
pub open spec fn is_visible(planes: Seq<Plane>, candidate: Candidate, pass: Pass) -> bool {
    &&& pass == Pass::Camera || candidate.shadow_caster
    &&& !planes_exclude(planes, candidate.volume)
}

/// The entities seen, in the order of the candidates.
pub open spec fn visible_entities(planes: Seq<Plane>, candidates: Seq<Candidate>, pass: Pass) -> Seq<u64>
    decreases candidates.len(),
{
    if candidates.len() == 0 {
        Seq::empty()
    } else {
        let earlier = visible_entities(planes, candidates.drop_last(), pass);
        if is_visible(planes, candidates.last(), pass) {
            earlier.push(candidates.last().entity)
        } else {
            earlier
        }
    }
}

/// Tests one candidate against a frustum.
pub fn check_visibility(frustum: &Frustum, candidate: &Candidate, pass: Pass) -> (visible: bool)
    ensures
        visible == is_visible(frustum@, *candidate, pass),
{
    let counts: bool = match pass {
        Pass::Camera => true,
        Pass::Shadow => candidate.shadow_caster,
    };
    counts && !frustum.is_outside(&candidate.volume)
}

/// Lists the entities that a frustum sees.
pub fn visible_in(frustum: &Frustum, candidates: &Vec<Candidate>, pass: Pass) -> (seen: Vec<u64>)
    ensures
        seen@ == visible_entities(frustum@, candidates@, pass),
{
    let mut seen: Vec<u64> = Vec::new();
    let mut i: usize = 0;
    assert(candidates@.take(0) =~= Seq::<Candidate>::empty());
    while i < candidates.len()
        invariant
            0 <= i <= candidates@.len(),
            seen@ == visible_entities(frustum@, candidates@.take(i as int), pass),
        decreases candidates@.len() - i,
    {
        proof {
            assert(candidates@.take(i + 1).drop_last() =~= candidates@.take(i as int));
            assert(candidates@.take(i + 1).last() == candidates@[i as int]);
        }
        if check_visibility(frustum, &candidates[i], pass) {
            seen.push(candidates[i].entity);
        }
        i += 1;
    }
    assert(candidates@.take(i as int) =~= candidates@);
    seen
}

/// Lists, for each frustum, the entities that it sees: one list per
/// cascade of a directional light, or per cube face of a point light.
pub fn visible_in_each(frusta: &Vec<Frustum>, candidates: &Vec<Candidate>, pass: Pass) -> (seen: Vec<Vec<u64>>)
    ensures
        seen@.len() == frusta@.len(),
        forall|f: int|
            0 <= f < frusta@.len() ==> (#[trigger] seen@[f])@ == visible_entities(
                frusta@[f]@,
                candidates@,
                pass,
            ),
{
    let mut seen: Vec<Vec<u64>> = Vec::new();
    let mut f: usize = 0;
    while f < frusta.len()
        invariant
            0 <= f <= frusta@.len(),
            seen@.len() == f,
            forall|g: int|
                0 <= g < f ==> (#[trigger] seen@[g])@ == visible_entities(
                    frusta@[g]@,
                    candidates@,
                    pass,
                ),
        decreases frusta@.len() - f,
    {
        seen.push(visible_in(&frusta[f], candidates, pass));
        f += 1;
    }
    seen
}

/// An entity is listed exactly when one of its candidates is seen.
pub proof fn lemma_listed_iff_visible(
    planes: Seq<Plane>,
    candidates: Seq<Candidate>,
    pass: Pass,
    entity: u64,
)
    ensures
        visible_entities(planes, candidates, pass).contains(entity) <==> exists|i: int|
            0 <= i < candidates.len() && (#[trigger] candidates[i]).entity == entity && is_visible(
                planes,
                candidates[i],
                pass,
            ),
    decreases candidates.len(),
{
    let list = visible_entities(planes, candidates, pass);
    if candidates.len() == 0 {
        assert(!list.contains(entity));
    } else {
        let rest = candidates.drop_last();
        let last = candidates.last();
        let earlier = visible_entities(planes, rest, pass);
        lemma_listed_iff_visible(planes, rest, pass, entity);
        let found = exists|i: int|
            0 <= i < candidates.len() && (#[trigger] candidates[i]).entity == entity && is_visible(
                planes,
                candidates[i],
                pass,
            );
        if list.contains(entity) {
            let at = choose|k: int| 0 <= k < list.len() && list[k] == entity;
            if is_visible(planes, last, pass) && at == earlier.len() {
                assert(candidates[candidates.len() - 1].entity == entity);
            } else {
                assert(earlier[at] == entity);
                assert(earlier.contains(entity));
                let i = choose|i: int|
                    0 <= i < rest.len() && (#[trigger] rest[i]).entity == entity && is_visible(
                        planes,
                        rest[i],
                        pass,
                    );
                assert(candidates[i] == rest[i]);
            }
            assert(found);
        }
        if found {
            let i = choose|i: int|
                0 <= i < candidates.len() && (#[trigger] candidates[i]).entity == entity
                    && is_visible(planes, candidates[i], pass);
            if i == candidates.len() - 1 {
                assert(list == earlier.push(entity));
                assert(list[earlier.len() as int] == entity);
            } else {
                assert(rest[i] == candidates[i]);
                assert(earlier.contains(entity));
                let at = choose|k: int| 0 <= k < earlier.len() && earlier[k] == entity;
                assert(list[at] == entity);
            }
            assert(list.contains(entity));
        }
    }
}

/// An entity that casts no shadow is never listed for a shadow map, unless
/// another candidate with its identity does.
pub proof fn lemma_non_casters_cast_no_shadow(
    planes: Seq<Plane>,
    candidates: Seq<Candidate>,
    entity: u64,
)
    requires
        forall|i: int|
            0 <= i < candidates.len() && (#[trigger] candidates[i]).entity == entity
                ==> !candidates[i].shadow_caster,
    ensures
        !visible_entities(planes, candidates, Pass::Shadow).contains(entity),
{
    lemma_listed_iff_visible(planes, candidates, Pass::Shadow, entity);
}

/// Culling loses nothing that can be seen: no point of a ball or of an
/// axis-aligned box that the planes exclude is inside all the planes.
pub proof fn lemma_excluded_volume_unseen(planes: Seq<Plane>, volume: BoundingVolume, p: Vector3)
    requires
        planes_exclude(planes, volume),
        match volume {
            BoundingVolume::Sphere(sphere) => sphere.contains_point(p),
            BoundingVolume::Aabb(aabb) => aabb.contains_point(p),
            BoundingVolume::OrientedBox(_) => false,
        },
    ensures
        !planes_contain(planes, p),
{
    let i = choose|i: int| 0 <= i < planes.len() && (#[trigger] planes[i]).volume_outside(volume);
    match volume {
        BoundingVolume::Sphere(sphere) => {
            lemma_sphere_outside_sound(planes[i], sphere, p);
        },
        BoundingVolume::Aabb(aabb) => {
            lemma_aabb_outside_sound(planes[i], aabb, p);
        },
        BoundingVolume::OrientedBox(_) => {},
    }
    assert(!planes[i].contains_point(p));
}

} // verus!
