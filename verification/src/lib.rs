//! Verified core of a layer-shell status bar: the slider carousel, the
//! left/right volume balance, the player selection and controls, and the
//! notification window state machine.

pub mod slider;
pub mod balance;
pub mod notify;
pub mod player;
pub mod art;
pub mod clock;
pub mod ops;
pub mod bar;
pub mod removal;
pub mod arrival;
pub mod events;
pub mod laws;

pub use slider::SliderIndex;
