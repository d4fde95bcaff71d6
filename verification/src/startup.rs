//! The decisions taken when the reader starts: which library to open and
//! whether the panel must be turned to the rotation the device starts in.
use vstd::prelude::*;

verus! {

/// Why the reader cannot start.
#[derive(Debug, Clone, Copy, PartialEq, Eq, Structural)]
pub enum StartupError {
    /// The settings list no library.
    NoLibraries,
}

/// The index of the library to open among `library_count` ones: the
/// selected one, or the first when the selection is out of range. With no
/// library, the reader cannot start.
pub fn library_to_open(library_count: usize, selected: usize) -> (r: Result<usize, StartupError>)
    ensures
        library_count == 0 <==> r == Err::<usize, StartupError>(StartupError::NoLibraries),
        library_count > 0 ==> r == Ok::<usize, StartupError>(
            if selected < library_count {
                selected
            } else {
                0
            },
        ),
{
    if library_count == 0 {
        return Err(StartupError::NoLibraries);
    }
    if selected >= library_count {
        Ok(0)
    } else {
        Ok(selected)
    }
}

/// The panel is turned to the startup rotation when the device has no
/// gyroscope and the panel's rotation differs from it.
pub fn must_rotate_at_startup(has_gyroscope: bool, initial_rotation: i8, startup_rotation: i8) -> (b: bool)
    ensures
        b == (!has_gyroscope && initial_rotation != startup_rotation),
{
    !has_gyroscope && initial_rotation != startup_rotation
}

} // verus!
