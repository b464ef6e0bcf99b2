use vstd::prelude::*;
use crate::block::NodeId;

verus! {

/// The peer identifier of a subscription, given the identifiers that the
/// peer announced on its block and on its gossip subscription: they must
/// agree.
pub fn subscription_node_id(block_node_id: NodeId, gossip_node_id: NodeId) -> (r: Option<NodeId>)
    ensures
        r == if block_node_id == gossip_node_id {
            Some(block_node_id)
        } else {
            None::<NodeId>
        },
{
    if block_node_id == gossip_node_id {
        Some(block_node_id)
    } else {
        None
    }
}

} // verus!
