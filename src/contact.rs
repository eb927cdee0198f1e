use crate::ids::NodeRef;
use vstd::prelude::*;

verus! {

/// The bootstrap contact of this process: the gossip node that newcomers join
/// through, once known, and the requests (by ticket) waiting for it.
#[derive(Debug)]
pub struct ContactService {
    pub contact_node_id: Option<NodeRef>,
    pub waitings: Vec<u64>,
}

impl ContactService {
    pub fn new() -> (r: ContactService)
        ensures
            r.contact_node_id is None,
            r.waitings@.len() == 0,
    {
        ContactService { contact_node_id: None, waitings: Vec::new() }
    }

    /// A request, answered through `ticket`, for the contact node: the id at
    /// once when known; otherwise the request waits for it.
    pub fn get_contact_node_id(&mut self, ticket: u64) -> (r: Option<NodeRef>)
        ensures
            r == old(self).contact_node_id,
            final(self).contact_node_id == old(self).contact_node_id,
            r is Some ==> final(self).waitings@ == old(self).waitings@,
            r is None ==> final(self).waitings@ == old(self).waitings@.push(ticket),
    {
        match self.contact_node_id {
            Some(id) => Some(id),
            None => {
                self.waitings.push(ticket);
                None
            },
        }
    }

    /// Sets the contact node; returns the waiting requests, first come first,
    /// to be answered with it.
    pub fn set_contact_node_id(&mut self, node_id: NodeRef) -> (r: Vec<u64>)
        ensures
            final(self).contact_node_id == Some(node_id),
            r@ == old(self).waitings@,
            final(self).waitings@.len() == 0,
    {
        self.contact_node_id = Some(node_id);
        let r = self.waitings.split_off(0);
        assert(r@ =~= old(self).waitings@);
        r
    }
}

} // verus!
