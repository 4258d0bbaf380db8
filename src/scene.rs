//! The scene: an unordered collection of objects that rays can hit.

use vstd::prelude::*;
use crate::hits::closest_hit;

verus! {

/// An object placed in a scene: a piece of geometry together with the mapping
/// from its surface to materials.
pub trait SceneObject {
    /// Reports whether every material the object can produce is legal.
    fn validate(&self) -> bool;

    /// Reports whether primary rays can hit the object. Rays that bounced, and
    /// occlusion probes, see every object.
    fn is_visible_to_camera(&self) -> bool;
}

/// What an object reported about itself when it was added to a scene.
#[derive(Clone, Copy, Debug, PartialEq, Eq, Structural)]
pub struct ObjectFlags {
    pub valid: bool,
    pub visible_to_camera: bool,
}

/// The default of an object's camera visibility: visible.
pub fn const_true() -> (r: bool)
    ensures
        r,
{
    true
}

/// The objects of a scene, in the order they were added, each with the flags
/// it reported then.
pub struct Scene<O> {
    pub objects: Vec<O>,
    pub flags: Vec<ObjectFlags>,
}

/// Whether object `i` may be hit by a ray at bounce `bounces`: every object
/// after the first bounce, only camera-visible ones before.
pub open spec fn eligible(flags: Seq<ObjectFlags>, i: int, bounces: u32) -> bool {
    bounces > 0 || flags[i].visible_to_camera
}

/// The hit keys with those of ineligible objects removed.
pub open spec fn eligible_keys(flags: Seq<ObjectFlags>, keys: Seq<Option<u64>>, bounces: u32) -> Seq<
    Option<u64>,
> {
    Seq::new(
        keys.len(),
        |i: int|
            if eligible(flags, i, bounces) {
                keys[i]
            } else {
                None
            },
    )
}

impl<O: SceneObject> Scene<O> {
    /// Every object has its flags.
    pub open spec fn wf(&self) -> bool {
        self.objects@.len() == self.flags@.len()
    }

    /// An empty scene.
    pub fn new() -> (r: Scene<O>)
        ensures
            r.wf(),
            r.objects@.len() == 0,
    {
        Scene { objects: Vec::new(), flags: Vec::new() }
    }

    /// Adds an object to the scene, recording its validity and visibility.
    pub fn add(&mut self, object: O)
        requires
            old(self).wf(),
        ensures
            final(self).wf(),
            final(self).objects@ == old(self).objects@.push(object),
            final(self).flags@.drop_last() == old(self).flags@,
    {
        let flags = ObjectFlags {
            valid: object.validate(),
            visible_to_camera: object.is_visible_to_camera(),
        };
        self.objects.push(object);
        self.flags.push(flags);
        assert(self.flags@.drop_last() =~= old(self).flags@);
    }

    /// Whether every object of the scene is valid.
    pub fn validate(&self) -> (r: bool)
        ensures
            r == forall|i: int| 0 <= i < self.flags@.len() ==> self.flags@[i].valid,
    {
        let mut i: usize = 0;
        while i < self.flags.len()
            invariant
                0 <= i <= self.flags@.len(),
                forall|j: int| 0 <= j < i ==> self.flags@[j].valid,
            decreases self.flags@.len() - i,
        {
            if !self.flags[i].valid {
                return false;
            }
            i += 1;
        }
        true
    }

    /// The index of the object whose hit is nearest, among those a ray at
    /// bounce `bounces` may hit. `keys[i]` is the hit key of object `i`, or
    /// `None` where the ray misses it.
    pub fn get_closest_hit(&self, keys: &Vec<Option<u64>>, bounces: u32) -> (r: Option<usize>)
        requires
            self.wf(),
            keys@.len() == self.objects@.len(),
        ensures
            r is None <==> crate::hits::no_hit(eligible_keys(self.flags@, keys@, bounces)),
            r matches Some(i) ==> crate::hits::is_closest(
                eligible_keys(self.flags@, keys@, bounces),
                i as int,
            ),
    {
        let mut masked: Vec<Option<u64>> = Vec::new();
        let mut i: usize = 0;
        while i < keys.len()
            invariant
                0 <= i <= keys@.len(),
                keys@.len() == self.flags@.len(),
                masked@ =~= eligible_keys(self.flags@, keys@, bounces).subrange(0, i as int),
            decreases keys@.len() - i,
        {
            if bounces > 0 || self.flags[i].visible_to_camera {
                masked.push(keys[i]);
            } else {
                masked.push(None);
            }
            i += 1;
        }
        assert(masked@ =~= eligible_keys(self.flags@, keys@, bounces));
        closest_hit(&masked)
    }
}

} // verus!
