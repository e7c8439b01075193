//! Decision core of an Earth-Moon system simulator.
//!
//! Everything that a simulator of launches in the Earth-Moon system decides
//! without doing arithmetic on measured quantities lives here: the calendar and
//! the epochs, the optimizer's search steps, trails and closest approaches, the
//! camera, the keyboard, the menus and the recorder. Quantities that come out
//! of an ephemeris or a propagator enter as [`scalar::Scalar`] where they are
//! compared, and as type parameters where they are only carried.

pub mod bodies;
pub mod calendar;
pub mod camera;
pub mod constants;
pub mod epoch;
pub mod lagrange;
pub mod menu;
pub mod nelder_mead;
pub mod optimizer;
pub mod orbit;
pub mod panel;
pub mod ranking;
pub mod recording;
pub mod scalar;
pub mod search;
pub mod simulation;
pub mod stars;
pub mod surface;
pub mod text;
pub mod trail;
