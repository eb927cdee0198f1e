use crate::error::{Error, ErrorKind};
use crate::{global, study};
use vstd::prelude::*;

verus! {

/// The payload of the gossip bus: a message for the cluster-wide node or for
/// a study node.
#[derive(Debug)]
pub enum UnionMessage {
    Global(global::Message),
    Study(study::Message),
}

impl UnionMessage {
    /// The cluster-wide message inside; `Other` for a study message.
    pub fn into_global_message(self) -> (r: Result<global::Message, Error>)
        ensures
            match self {
                UnionMessage::Global(m) => r is Ok && r->Ok_0 == m,
                UnionMessage::Study(_) => r is Err && r->Err_0.kind == ErrorKind::Other,
            },
    {
        match self {
            UnionMessage::Global(m) => Ok(m),
            UnionMessage::Study(_) => Err(Error::other()),
        }
    }

    /// The study message inside; `Other` for a cluster-wide message.
    pub fn into_study_message(self) -> (r: Result<study::Message, Error>)
        ensures
            match self {
                UnionMessage::Study(m) => r is Ok && r->Ok_0 == m,
                UnionMessage::Global(_) => r is Err && r->Err_0.kind == ErrorKind::Other,
            },
    {
        match self {
            UnionMessage::Study(m) => Ok(m),
            UnionMessage::Global(_) => Err(Error::other()),
        }
    }

    pub fn from_global(m: global::Message) -> (r: UnionMessage)
        ensures
            r == UnionMessage::Global(m),
    {
        UnionMessage::Global(m)
    }

    pub fn from_study(m: study::Message) -> (r: UnionMessage)
        ensures
            r == UnionMessage::Study(m),
    {
        UnionMessage::Study(m)
    }
}

} // verus!
