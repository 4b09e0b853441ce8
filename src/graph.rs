//! Planning the build of a net graph from its flat configuration.
use crate::error::Error;
use crate::name_map::NameMap;
use crate::topo::{build_order, deps_view, has_build_order, is_build_order};
use vstd::prelude::*;

verus! {

/// Some instance refers to a name that no instance has.
pub open spec fn has_undefined_reference<V>(instances: &NameMap<V>, deps: Seq<Seq<Seq<char>>>) -> bool {
    exists|i: int, k: int|
        0 <= i < deps.len() && 0 <= k < deps[i].len() && !instances.view().dom().contains(
            #[trigger] deps[i][k],
        )
}

/// The first name in `deps` that `instances` lacks, if any.
fn find_undefined<V>(instances: &NameMap<V>, deps: &Vec<Vec<String>>) -> (r: Option<String>)
    requires
        instances.wf(),
    ensures
        r is None <==> !has_undefined_reference(instances, deps_view(deps@)),
        r matches Some(n) ==> !instances.view().dom().contains(n@) && exists|i: int, k: int|
            0 <= i < deps@.len() && 0 <= k < deps@[i]@.len() && #[trigger] deps@[i]@[k]@ == n@,
{
    let ghost dv = deps_view(deps@);
    let mut i: usize = 0;
    while i < deps.len()
        invariant
            instances.wf(),
            dv == deps_view(deps@),
            i <= deps@.len(),
            forall|a: int, k: int|
                0 <= a < i && 0 <= k < dv[a].len() ==> instances.view().dom().contains(#[trigger] dv[a][k]),
        decreases deps@.len() - i,
    {
        let ds = &deps[i];
        let mut k: usize = 0;
        while k < ds.len()
            invariant
                instances.wf(),
                dv == deps_view(deps@),
                i < deps@.len(),
                *ds == deps@[i as int],
                k <= ds@.len(),
                forall|a: int, k2: int|
                    0 <= a < i && 0 <= k2 < dv[a].len() ==> instances.view().dom().contains(#[trigger] dv[a][k2]),
                forall|k2: int| 0 <= k2 < k ==> instances.view().dom().contains(#[trigger] dv[i as int][k2]),
            decreases ds@.len() - k,
        {
            if !instances.contains_key(&ds[k]) {
                proof {
                    assert(dv[i as int][k as int] == ds@[k as int]@);
                }
                return Some(ds[k].clone());
            }
            proof {
                assert(dv[i as int][k as int] == ds@[k as int]@);
            }
            k += 1;
        }
        i += 1;
    }
    None
}

/// The order in which to build the instances of `instances`, where
/// `deps[i]` names the nets that the instance at position `i` refers to.
/// Fails with `NotFound` where an instance refers to a name that no instance
/// has, and otherwise with `Cycle` where the references form a cycle. On
/// failure no order is given, so no instance is built.
pub fn build_plan<V>(instances: &NameMap<V>, deps: &Vec<Vec<String>>) -> (r: Result<Vec<usize>, Error>)
    requires
        instances.wf(),
        deps@.len() == instances.names().len(),
    ensures
        r matches Err(Error::NotFound(_)) <==> has_undefined_reference(instances, deps_view(deps@)),
        r matches Err(Error::NotFound(n)) ==> !instances.view().dom().contains(n@) && exists|i: int, k: int|
            0 <= i < deps@.len() && 0 <= k < deps@[i]@.len() && #[trigger] deps@[i]@[k]@ == n@,
        r == Err::<Vec<usize>, Error>(Error::Cycle) <==> (!has_undefined_reference(
            instances,
            deps_view(deps@),
        ) && !has_build_order(instances.names(), deps_view(deps@))),
        r matches Ok(o) ==> is_build_order(instances.names(), deps_view(deps@), o@),
        r is Ok || r matches Err(Error::NotFound(_)) || r == Err::<Vec<usize>, Error>(Error::Cycle),
{
    match find_undefined(instances, deps) {
        Some(name) => {
            return Err(Error::NotFound(name));
        },
        None => {},
    }
    match build_order(instances, deps) {
        Some(o) => Ok(o),
        None => Err(Error::Cycle),
    }
}

} // verus!
