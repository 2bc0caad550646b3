//! Collatz trajectories shown as bit masks: the step rules, the fills that
//! record a trajectory, the nibble-wise mask widgets and the state machine
//! that drives the application.

pub mod collatz;
pub mod base2;
pub mod widgets;
pub mod state;
