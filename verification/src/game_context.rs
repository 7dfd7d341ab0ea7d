//! The shared handle bundle passed into every script invocation.
//!
//! Every live script and the top-level game loop share one logical set of
//! game-wide state. Since a single thread drives all execution, the shared
//! state needs no locking: the global resources are read-mostly and shared by
//! reference counting, and the runtime itself is handed to whoever needs it
//! as a mutable borrow by its single owner, the game loop.

use vstd::prelude::*;
use std::rc::Rc;
use crate::resources::GlobalResourceStorage;

verus! {

/// Relies on std's `Rc::clone`: the clone is a new reference-counted handle
/// to the same allocation, equal to the original; the underlying state is not
/// copied.
#[verifier::external_body]
fn rc_clone<T>(v: &Rc<T>) -> (res: Rc<T>)
    ensures
        res == *v,
{
    Rc::clone(v)
}

/// The bundle of shared handles threaded into every script: global
/// read-mostly game resources, looked up by string path.
///
/// Cloning a context increases the reference count on the underlying shared
/// storage; it does not copy the stored state. The active screen and the
/// rendering backend live outside the runtime, with the game loop.
pub struct GameContext {
    pub global_resource_storage: Rc<GlobalResourceStorage>,
}

impl Clone for GameContext {
    fn clone(&self) -> (r: Self)
        ensures
            r == *self,
    {
        GameContext { global_resource_storage: rc_clone(&self.global_resource_storage) }
    }
}

impl GameContext {
    pub fn new(global_resource_storage: Rc<GlobalResourceStorage>) -> (r: Self)
        ensures
            r.global_resource_storage == global_resource_storage,
    {
        GameContext { global_resource_storage }
    }
}

} // verus!
