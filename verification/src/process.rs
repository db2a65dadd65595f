//! How child processes are started.
use vstd::prelude::*;

verus! {

/// The Windows process-creation flag that starts a console program without a window.
pub const CREATE_NO_WINDOW: u32 = 0x08000000;

/// The creation flags that keep a child process from opening a console window on Windows.
pub fn windows_child_process_creation_flags() -> (r: u32)
    ensures
        r == CREATE_NO_WINDOW,
{
    CREATE_NO_WINDOW
}

} // verus!
