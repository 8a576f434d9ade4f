use vstd::prelude::*;

verus! {

/// Installs the exit handling into the application.
pub struct ExitAppPlugin;

/// Asks the application to exit at the end of the frame.
pub struct ExitAppEvent;

/// Whether the application is to exit.
pub struct ExitApp(pub bool);

impl Default for ExitApp {
    fn default() -> (e: Self)
        ensures
            !e.0,
    {
        ExitApp(false)
    }
}

/// Marks the application for exit once any exit request arrived; the mark
/// is never cleared.
pub fn on_exit_app(exit_requested: bool, exit_app: &mut ExitApp)
    ensures
        final(exit_app).0 == (old(exit_app).0 || exit_requested),
{
    if exit_requested {
        exit_app.0 = true;
    }
}

/// Whether the application keeps running after a frame: until it is marked
/// for exit (a missing mark counts as not marked).
pub fn keeps_running(exit_app: Option<&ExitApp>) -> (b: bool)
    ensures
        b == match exit_app {
            Some(e) => !e.0,
            None => true,
        },
{
    let exit = match exit_app {
        Some(e) => e.0,
        None => false,
    };
    !exit
}

} // verus!
