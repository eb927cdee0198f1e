use crate::ids::{TrialId, TrialState};
use crate::strmap::{Duplicate, StrMap};
use crate::time::Timestamp;
use std::collections::BTreeMap;
use vstd::prelude::*;

verus! {

broadcast use vstd::std_specs::btree::group_btree_axioms;

/// The sign bit of an IEEE-754 double.
pub const SIGN_BIT: u64 = 0x8000_0000_0000_0000;

/// The exponent bits of an IEEE-754 double.
pub const EXPONENT_BITS: u64 = 0x7ff0_0000_0000_0000;

/// The fraction bits of an IEEE-754 double.
pub const FRACTION_BITS: u64 = 0x000f_ffff_ffff_ffff;

/// Whether the double with these bits is a NaN: all exponent bits set, a
/// fraction that is not zero.
pub open spec fn is_nan_spec(bits: u64) -> bool {
    bits & EXPONENT_BITS == EXPONENT_BITS && bits & FRACTION_BITS != 0
}

/// A key whose unsigned order is the numeric order of the (non-NaN) doubles:
/// negative values have all bits flipped, the others get the sign bit set, and
/// negative zero counts as zero.
pub open spec fn order_key_spec(bits: u64) -> u64 {
    if bits == SIGN_BIT {
        SIGN_BIT
    } else if bits & SIGN_BIT != 0 {
        !bits
    } else {
        bits | SIGN_BIT
    }
}

pub fn is_nan(bits: u64) -> (r: bool)
    ensures
        r == is_nan_spec(bits),
{
    bits & EXPONENT_BITS == EXPONENT_BITS && bits & FRACTION_BITS != 0
}

pub fn order_key(bits: u64) -> (r: u64)
    ensures
        r == order_key_spec(bits),
{
    if bits == SIGN_BIT {
        SIGN_BIT
    } else if bits & SIGN_BIT != 0 {
        !bits
    } else {
        bits | SIGN_BIT
    }
}

/// The value of a parameter: a double (as its bits) and the JSON text of the
/// distribution it was drawn from.
#[derive(Debug)]
pub struct TrialParamValue {
    pub value: u64,
    pub distribution: String,
}

impl Duplicate for TrialParamValue {
    fn duplicate(&self) -> (r: TrialParamValue) {
        TrialParamValue { value: self.value, distribution: self.distribution.clone() }
    }
}

/// One evaluation within a study. Attribute values are JSON texts; objective
/// and intermediate values are doubles, held as their bits.
#[derive(Debug)]
pub struct Trial {
    pub trial_id: TrialId,
    pub state: TrialState,
    pub value: Option<u64>,
    pub intermediate_values: BTreeMap<u32, u64>,
    pub params: StrMap<TrialParamValue>,
    pub user_attrs: StrMap<String>,
    pub system_attrs: StrMap<String>,
    pub datetime_start: Option<Timestamp>,
    pub datetime_end: Option<Timestamp>,
}

/// A trial as a value: its id, state, objective value, and its mappings by
/// content.
pub ghost struct TrialView {
    pub trial_id: TrialId,
    pub state: TrialState,
    pub value: Option<u64>,
    pub intermediate_values: Map<u32, u64>,
    pub params: Map<Seq<char>, TrialParamValue>,
    pub user_attrs: Map<Seq<char>, String>,
    pub system_attrs: Map<Seq<char>, String>,
    pub datetime_start: Option<Timestamp>,
    pub datetime_end: Option<Timestamp>,
}

impl View for Trial {
    type V = TrialView;

    open spec fn view(&self) -> TrialView {
        TrialView {
            trial_id: self.trial_id,
            state: self.state,
            value: self.value,
            intermediate_values: self.intermediate_values@,
            params: self.params@,
            user_attrs: self.user_attrs@,
            system_attrs: self.system_attrs@,
            datetime_start: self.datetime_start,
            datetime_end: self.datetime_end,
        }
    }
}

/// A trial of which nothing has been seen but its id.
pub open spec fn blank_trial(trial_id: TrialId) -> TrialView {
    TrialView {
        trial_id,
        state: TrialState::Running,
        value: None,
        intermediate_values: Map::empty(),
        params: Map::empty(),
        user_attrs: Map::empty(),
        system_attrs: Map::empty(),
        datetime_start: None,
        datetime_end: None,
    }
}

/// The trial as readers see it: none before its creation was seen; a complete
/// trial without a value reads as running, with no end time.
pub open spec fn adjusted(t: TrialView) -> Option<TrialView> {
    if t.datetime_start is None {
        None
    } else if t.state == TrialState::Complete && t.value is None {
        Some(TrialView { state: TrialState::Running, datetime_end: None, ..t })
    } else {
        Some(t)
    }
}

/// The state change of `SetTrialState`: a state other than running records
/// its time as the end; a running trial has no end.
pub open spec fn with_state(t: TrialView, state: TrialState, timestamp: Timestamp) -> TrialView {
    TrialView {
        state,
        datetime_end: if state != TrialState::Running {
            Some(timestamp)
        } else {
            None
        },
        ..t
    }
}

impl Trial {
    pub open spec fn wf(&self) -> bool {
        &&& self.params.wf()
        &&& self.user_attrs.wf()
        &&& self.system_attrs.wf()
    }

    /// A trial of which nothing has been seen yet but its id.
    pub fn new(trial_id: TrialId) -> (r: Trial)
        ensures
            r.wf(),
            r@ == blank_trial(trial_id),
    {
        Trial {
            trial_id,
            state: TrialState::Running,
            value: None,
            intermediate_values: BTreeMap::new(),
            params: StrMap::new(),
            user_attrs: StrMap::new(),
            system_attrs: StrMap::new(),
            datetime_start: None,
            datetime_end: None,
        }
    }

    pub fn state(&self) -> (r: TrialState)
        ensures
            r == self.state,
    {
        self.state
    }

    /// Moves the trial to `state`; a state other than running records
    /// `timestamp` as its end, and a running trial has no end.
    pub fn set_state(&mut self, state: TrialState, timestamp: Timestamp)
        ensures
            final(self)@ == with_state(old(self)@, state, timestamp),
            final(self).wf() == old(self).wf(),
    {
        self.state = state;
        if state != TrialState::Running {
            self.datetime_end = Some(timestamp);
        } else {
            self.datetime_end = None;
        }
    }

    /// Whether the trial is complete.
    pub fn is_complete(&self) -> (r: bool)
        ensures
            r == (self.state == TrialState::Complete),
    {
        self.state == TrialState::Complete
    }

    /// A copy of the trial.
    pub fn duplicate(&self) -> (r: Trial)
        ensures
            r@ == self@,
            r.wf() == self.wf(),
    {
        Trial {
            trial_id: self.trial_id,
            state: self.state,
            value: self.value,
            intermediate_values: self.intermediate_values.clone(),
            params: self.params.duplicate(),
            user_attrs: self.user_attrs.duplicate(),
            system_attrs: self.system_attrs.duplicate(),
            datetime_start: self.datetime_start,
            datetime_end: self.datetime_end,
        }
    }

    /// The trial as readers see it (see `adjusted`).
    pub fn adjust(&self) -> (r: Option<Trial>)
        ensures
            r is Some <==> adjusted(self@) is Some,
            r is Some ==> r->0@ == adjusted(self@)->0 && r->0.wf() == self.wf(),
    {
        if self.datetime_start.is_none() {
            return None;
        }
        let mut t = self.duplicate();
        if t.state == TrialState::Complete && t.value.is_none() {
            t.state = TrialState::Running;
            t.datetime_end = None;
        }
        Some(t)
    }
}

} // verus!
