use vstd::prelude::*;

use crate::model::Instance;

verus! {

/// The instances to draw, in drawing order.
pub struct Scene {
    pub instances: Vec<Instance>,
}

impl Scene {
    pub fn new() -> (s: Scene)
        ensures
            s.instances@.len() == 0,
    {
        Scene { instances: Vec::new() }
    }

    /// Adds `instance` after those already in the scene.
    pub fn add_instance(&mut self, instance: Instance)
        ensures
            final(self).instances@ == old(self).instances@.push(instance),
    {
        self.instances.push(instance);
    }

    pub open spec fn wf(&self) -> bool {
        forall|i: int| 0 <= i < self.instances@.len() ==> (#[trigger] self.instances@[i]).wf()
    }
}

} // verus!
