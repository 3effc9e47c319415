//! Deleting a node from the engine (the decisions around [`Tree::delete`]): what is
//! refused, and the order in which the subtree hears of its deletion, leaves its groups, is
//! freed and its parent hears of it.
use vstd::prelude::*;
use crate::error::EngineError;
use crate::ids::NodeId;
use crate::tree::Tree;

verus! {

/// One step of deleting a node from the engine.
#[derive(Clone, Copy, Debug, PartialEq, Eq, Structural)]
pub enum DeleteStep {
    /// Send `Delete` to the node if it still exists.
    SendDelete(NodeId),
    /// Take the node out of its focus group if it still exists and is in one.
    LeaveGroup(NodeId),
    /// End the deletion here (successfully) unless the node still exists: a handler
    /// deleted it already.
    EndUnlessAlive(NodeId),
    /// Invalidate the node's area, free its subtree and forget the animations and screens
    /// of the freed nodes.
    Free(NodeId),
    /// When the parent the node had (looked up before freeing) still exists: mark its
    /// layout, and send it `ChildDeleted` with the deleted node as target.
    NotifyParent(NodeId),
}

/// The steps of deleting `id` (LVGL `lv_obj_delete`), whose subtree in post-order is
/// `order`: every node of the subtree gets `Delete`, children before their parent; unless
/// that deleted `id` already, the nodes leave their groups; unless that deleted it, it is
/// freed and its parent is told.
pub open spec fn delete_steps_model(id: NodeId, order: Seq<NodeId>) -> Seq<DeleteStep> {
    order.map_values(|n: NodeId| DeleteStep::SendDelete(n))
        + seq![DeleteStep::EndUnlessAlive(id)]
        + order.map_values(|n: NodeId| DeleteStep::LeaveGroup(n))
        + seq![DeleteStep::EndUnlessAlive(id), DeleteStep::Free(id), DeleteStep::NotifyParent(id)]
}

/// The deletion of `id` from the engine: `NodeNotFound` for a dead id; a layer or the
/// active screen of a display (`protected`) is refused with `InvalidConfig`; else the steps
/// of [`delete_steps_model`] over the subtree of `id` in post-order.
pub fn delete_steps(t: &Tree, id: NodeId, protected: bool) -> (r: Result<Vec<DeleteStep>, EngineError>)
    requires
        t.wf(),
    ensures
        !t.has(id) ==> r == Err::<Vec<DeleteStep>, EngineError>(EngineError::NodeNotFound(id)),
        t.has(id) && protected ==> r == Err::<Vec<DeleteStep>, EngineError>(
            EngineError::InvalidConfig("cannot delete a layer or the active screen")),
        t.has(id) && !protected ==> r is Ok && r->Ok_0@ == delete_steps_model(id, t.post_walk(id)),
{
    if !t.contains(id) {
        return Err(EngineError::NodeNotFound(id));
    }
    if protected {
        return Err(EngineError::InvalidConfig("cannot delete a layer or the active screen"));
    }
    let order = t.post_order(id);
    let mut steps: Vec<DeleteStep> = Vec::new();
    let mut i: usize = 0;
    while i < order.len()
        invariant
            i <= order@.len(),
            steps@ == order@.take(i as int).map_values(|n: NodeId| DeleteStep::SendDelete(n)),
        decreases order@.len() - i,
    {
        steps.push(DeleteStep::SendDelete(order[i]));
        proof {
            assert(order@.take(i + 1).map_values(|n: NodeId| DeleteStep::SendDelete(n))
                =~= order@.take(i as int).map_values(|n: NodeId| DeleteStep::SendDelete(n)).push(DeleteStep::SendDelete(order@[i as int])));
        }
        i = i + 1;
    }
    steps.push(DeleteStep::EndUnlessAlive(id));
    let ghost first = steps@;
    i = 0;
    while i < order.len()
        invariant
            i <= order@.len(),
            steps@ == first + order@.take(i as int).map_values(|n: NodeId| DeleteStep::LeaveGroup(n)),
        decreases order@.len() - i,
    {
        steps.push(DeleteStep::LeaveGroup(order[i]));
        proof {
            assert(order@.take(i + 1).map_values(|n: NodeId| DeleteStep::LeaveGroup(n))
                =~= order@.take(i as int).map_values(|n: NodeId| DeleteStep::LeaveGroup(n)).push(DeleteStep::LeaveGroup(order@[i as int])));
        }
        i = i + 1;
    }
    steps.push(DeleteStep::EndUnlessAlive(id));
    steps.push(DeleteStep::Free(id));
    steps.push(DeleteStep::NotifyParent(id));
    proof {
        assert(order@.take(order@.len() as int) =~= order@);
        assert(steps@ =~= delete_steps_model(id, t.post_walk(id)));
    }
    Ok(steps)
}

} // verus!
