//! Coordination store for hyperparameter-optimization studies: the decision
//! logic of the per-study replicated state, the cluster-wide study-name
//! resolution, the last-writer-wins ledger and the subscriber fan-out.
use vstd::prelude::*;

pub mod contact;
pub mod error;
pub mod forget;
pub mod global;
pub mod http;
pub mod ids;
pub mod message;
pub mod operation;
pub mod strmap;
pub mod study;
pub mod subscriber;
pub mod time;
pub mod trial;

verus! {

} // verus!
