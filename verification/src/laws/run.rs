//! What holds of a whole run.

use vstd::prelude::*;
use crate::emit::MissingKey;
use crate::reconcile::Baseline;
use crate::{config_outcome, outcome};

verus! {

/// A run is decided by its inputs: whatever `config_str` returns for the same
/// dumps is the same script, character for character, or names the same
/// missing key.
pub proof fn lemma_same_inputs_same_outcome(
    baseline: Baseline,
    machine: String,
    user: String,
    binds: String,
    first: Result<String, MissingKey>,
    second: Result<String, MissingKey>,
)
    requires
        outcome(first) == config_outcome(
            baseline.machine_convars@,
            baseline.user_convars@,
            baseline.binds@,
            machine@,
            user@,
            binds@,
        ),
        outcome(second) == config_outcome(
            baseline.machine_convars@,
            baseline.user_convars@,
            baseline.binds@,
            machine@,
            user@,
            binds@,
        ),
    ensures
        outcome(first) == outcome(second),
        first matches Ok(text) ==> second matches Ok(again) && text@ == again@,
        first matches Err(e) ==> second matches Err(again) && e@ == again@,
{
}

} // verus!
