//! Keyboard hints for on-screen controls.
//!
//! A scan of the frontmost application yields a list of [`UiElement`]s. Each
//! gets a short label, its hint; the user types a hint or a fragment of an
//! element's text, the typed text is ranked against the hints, and the chosen
//! element is found again and clicked.

pub mod geometry;
pub mod hints;
pub mod invoke;
pub mod labels;
pub mod mac;
pub mod matching;
pub mod text;
pub mod traits;
pub mod windows;
pub mod worker;

pub use hints::Hint;
pub use traits::{AccessibilityCalls, Action, UiElement};
