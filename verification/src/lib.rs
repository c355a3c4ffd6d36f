//! A small process supervisor for containers: it runs the init processes of a
//! configuration, then its services, restarts the services that exit, and winds
//! everything down when it is told to stop.
//!
//! The library decides and a thin program around it acts. Every operation takes
//! plain values and answers with the [`action::Action`]s that the program has to
//! perform: spawn a command, signal a process, deliver an event now or later.

pub mod action;
pub mod answers;
pub mod calls;
pub mod duration;
pub mod event;
pub mod laws;
pub mod listen;
pub mod model;
pub mod names;
pub mod process;
pub mod spec;
pub mod state;
pub mod unix;
pub mod world;
