//! What the general, hotkey, QR, capture, overview, theme and quick launch
//! commands answer: their view models, and the stable codes and messages
//! each failure maps to.
pub mod capture;
pub mod general;
pub mod hotkey;
pub mod overview;
pub mod qr;
pub mod quick_launch;
pub mod theme;
