//! The agent registry: maps capability names to providers; pure lookup,
//! populated before any graph is dispatched.

use crate::errors::MeshError;
use vstd::prelude::*;

verus! {

/// The names under which capability providers are registered, in
/// registration order. Resolution returns the index; the hosting process
/// keeps the providers themselves in a parallel collection and picks by
/// that index.
#[derive(Debug)]
pub struct AgentRegistry {
    pub names: Vec<String>,
}

impl AgentRegistry {
    /// The name is bound in the registry.
    pub open spec fn spec_bound(self, name: Seq<char>) -> bool {
        exists|i: int| 0 <= i < self.names@.len() && (#[trigger] self.names@[i]@) == name
    }

    /// An empty registry.
    pub fn new() -> (r: AgentRegistry)
        ensures
            r.names@.len() == 0,
    {
        AgentRegistry { names: Vec::new() }
    }

    /// Bind a capability name. Fails with `DuplicateCapability` exactly when
    /// the name is already bound; no runtime mutation happens during an
    /// active plan, so a duplicate is a configuration error.
    pub fn register(&mut self, name: &String) -> (r: Result<(), MeshError>)
        ensures
            r is Ok <==> !old(self).spec_bound(name@),
            r is Err ==> r == Err::<(), MeshError>(MeshError::DuplicateCapability) && *final(self)
                == *old(self),
            r is Ok ==> final(self).names@ == old(self).names@.push(*name),
    {
        let mut i: usize = 0;
        while i < self.names.len()
            invariant
                i <= self.names@.len(),
                *self == *old(self),
                forall|j: int| 0 <= j < i ==> (#[trigger] self.names@[j]@) != name@,
            decreases self.names@.len() - i,
        {
            if self.names[i] == *name {
                return Err(MeshError::DuplicateCapability);
            }
            i += 1;
        }
        self.names.push(name.clone());
        Ok(())
    }

    /// Resolve a capability name to the index it was registered under.
    /// Fails with `UnknownCapability` exactly when the name is not bound.
    pub fn resolve(&self, name: &String) -> (r: Result<usize, MeshError>)
        ensures
            r is Ok <==> self.spec_bound(name@),
            r matches Ok(i) ==> i < self.names@.len() && self.names@[i as int]@ == name@,
            r is Err ==> r == Err::<usize, MeshError>(MeshError::UnknownCapability),
    {
        let mut i: usize = 0;
        while i < self.names.len()
            invariant
                i <= self.names@.len(),
                forall|j: int| 0 <= j < i ==> (#[trigger] self.names@[j]@) != name@,
            decreases self.names@.len() - i,
        {
            if self.names[i] == *name {
                return Ok(i);
            }
            i += 1;
        }
        Err(MeshError::UnknownCapability)
    }
}

} // verus!
