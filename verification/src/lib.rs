//! Merge-and-diff engine for Counter-Strike 2 configuration dumps.
//!
//! Three text dumps (machine settings, user settings, key binds) are parsed,
//! reconciled against a baseline and rendered as one `autoexec` script that
//! holds the fixed sections, every bound bind, and the settings that differ
//! from the baseline.
//!
//! The stages are `parse` (lines to entries), `reconcile` (entries to the
//! maps of a run) and `emit` (maps to the script); `config_str` runs them in
//! this order. `laws` states what holds of the whole.

pub mod text;
pub mod config_map;
pub mod order;
pub mod parse;
pub mod reconcile;
pub mod emit;
pub mod laws;

use vstd::prelude::*;

pub use crate::config_map::ConfigMap;
pub use crate::emit::{emit, sections, write_sections, MissingKey, Section};
pub use crate::parse::add_to_config;
pub use crate::reconcile::{filter_config, ignored_commands, reconcile, Baseline, Reconciled};

use crate::emit::{catalog, first_missing, script_lines};
use crate::reconcile::{binds_of, custom_settings, settings_of};

verus! {

/// The lines of the script for the supplied dumps `machine`, `user` and
/// `binds`, against the baseline dumps `base_machine`, `base_user` and
/// `base_binds`.
pub open spec fn config_lines(
    base_machine: Seq<char>,
    base_user: Seq<char>,
    base_binds: Seq<char>,
    machine: Seq<char>,
    user: Seq<char>,
    binds: Seq<char>,
) -> Seq<Seq<char>> {
    script_lines(
        settings_of(base_machine, base_user),
        custom_settings(machine, user),
        binds_of(base_binds, binds),
    )
}

/// The script for these dumps: its lines, one after the other.
pub open spec fn config_script(
    base_machine: Seq<char>,
    base_user: Seq<char>,
    base_binds: Seq<char>,
    machine: Seq<char>,
    user: Seq<char>,
    binds: Seq<char>,
) -> Seq<char> {
    config_lines(base_machine, base_user, base_binds, machine, user, binds).flatten()
}

/// What a run comes to: the text of the script, or the section and the key
/// that it lacks.
pub open spec fn outcome(result: Result<String, MissingKey>) -> Result<
    Seq<char>,
    (Seq<char>, Seq<char>),
> {
    match result {
        Ok(text) => Ok(text@),
        Err(e) => Err(e@),
    }
}

/// What a run on these dumps comes to: the first key of a section that the
/// supplied settings lack, or else the script.
pub open spec fn config_outcome(
    base_machine: Seq<char>,
    base_user: Seq<char>,
    base_binds: Seq<char>,
    machine: Seq<char>,
    user: Seq<char>,
    binds: Seq<char>,
) -> Result<Seq<char>, (Seq<char>, Seq<char>)> {
    match first_missing(custom_settings(machine, user), catalog()) {
        Some(missing) => Err(missing),
        None => Ok(config_script(base_machine, base_user, base_binds, machine, user, binds)),
    }
}

/// Builds the script from the three supplied dumps. Where the supplied
/// settings lack a key of a section, no script is built and the first such
/// key is named.
pub fn config_str(
    baseline: &Baseline,
    custom_machine_convars: String,
    custom_user_convars: String,
    custom_binds: String,
) -> (result: Result<String, MissingKey>)
    ensures
        outcome(result) == config_outcome(
            baseline.machine_convars@,
            baseline.user_convars@,
            baseline.binds@,
            custom_machine_convars@,
            custom_user_convars@,
            custom_binds@,
        ),
{
    let mut maps = reconcile(
        baseline,
        custom_machine_convars.as_str(),
        custom_user_convars.as_str(),
        custom_binds.as_str(),
    );
    emit(&maps.default_config, &mut maps.custom_config, &maps.binds)
}

} // verus!
