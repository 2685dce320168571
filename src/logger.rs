use vstd::prelude::*;

verus! {

#[verifier::external_type_specification]
#[verifier::external_body]
pub struct ExSetLoggerError(log::SetLoggerError);

/// Relies on log::set_max_level: stores `Info` as the global maximum level of
/// the `log` facade.
#[verifier::external_body]
fn set_max_level_info() {
    log::set_max_level(log::LevelFilter::Info)
}

/// Completes the installation of the process logger. `installed` is what
/// registering the logger with the `log` facade returned: when it succeeded,
/// the global level is raised to `Info`; the outcome is handed back as it came.
pub fn init(installed: Result<(), log::SetLoggerError>) -> (r: Result<(), log::SetLoggerError>)
    ensures
        r == installed,
{
    if installed.is_ok() {
        set_max_level_info();
    }
    installed
}

} // verus!
