//! Interruptible task-coordination and timing core for a two-channel
//! actuation appliance with a looping tone track.
//!
//! The crate verifies the pieces that decide *what happens when*: the shared
//! coordinator state between the operator interface and the two sequencer
//! loops, the interruptible/pausable wait logic, the actuation sequencer's
//! cycle machine, the track articulation planner, and the note-name parser.
//! Blocking, rendering and hardware commands live outside this crate and
//! drive these functions with plain values.

pub mod coordinator;
pub mod counter;
pub mod notes;
pub mod sequencer;
pub mod track;
pub mod wait;

pub use coordinator::Coordinator;
pub use coordinator::Order;
