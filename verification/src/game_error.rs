use vstd::prelude::*;

verus! {

/// The different reasons a game embedding this grid could end.  The
/// terminal faults themselves arise outside this library; this type only
/// classifies them.
#[derive(Debug, Clone, Copy, PartialEq, Eq, Structural)]
pub enum GameError {
    /// An error occurred while running the application.
    Running,
    /// An error occurred trying to enable raw mode on the terminal.
    RawMode,
    /// An error occurred while creating a new terminal or showing the cursor.
    TerminalMode,
    /// An error occurred trying to execute commands on the terminal.
    TerminalExecute,
}

} // verus!
