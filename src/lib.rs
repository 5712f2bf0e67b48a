//! Detection of keyboard shortcuts (simultaneous key combinations and same-key
//! double presses) over a stream of key press and release events.
//!
//! Keys are plain identifiers (`u64`) and times are monotonic timestamps in
//! milliseconds. Processing an event returns the handles of the shortcuts that
//! fired, in the order in which their actions are to run; the caller owns the
//! actions and runs them.

pub mod shortcut;
pub mod manager;
pub mod laws;

pub use shortcut::{KeyEvent, RegistrationError, Shortcut};
pub use manager::KeyboardManager;
